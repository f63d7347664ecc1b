//! Focus, checked tiles, the shift-click anchor and the open image, and how
//! clicks, filters and reloads change them.

use vstd::prelude::*;

use crate::gallery::nav::{ascending, lemma_range_ascending, range_of, range_select};
use crate::media::types::{Entry, MediaKind};
use crate::path::LibPath;

verus! {

/// Where the grid's attention is. `checked` lists the checked tiles in
/// ascending order, each once.
pub struct Selection {
    pub focused: Option<usize>,
    pub checked: Vec<usize>,
    pub anchor: Option<usize>,
    pub selected: Option<usize>,
}

/// What changes outside the selection after a tile is opened.
#[derive(Debug, PartialEq, Eq)]
pub enum OpenAction {
    /// Nothing to open: the index is past the listing.
    Nothing,
    /// A folder: stop the slideshow and load it.
    LoadFolder(LibPath),
    /// An image: the lightbox shows it from a fresh view.
    ShowImage,
    /// A video: stop the slideshow and hand it to the system player.
    PlayVideo(LibPath),
}

/// The checked tiles after a ctrl-click on `i`: it leaves when checked, and
/// joins otherwise.
pub open spec fn flipped(s: Set<usize>, i: usize) -> Set<usize> {
    if s.contains(i) {
        s.remove(i)
    } else {
        s.insert(i)
    }
}

/// Ctrl-clicking a tile twice leaves the checked tiles as they were.
pub proof fn law_check_twice(s: Set<usize>, i: usize)
    ensures
        flipped(flipped(s, i), i) == s,
{
    if s.contains(i) {
        assert(s.remove(i).insert(i) =~= s);
    } else {
        assert(s.insert(i).remove(i) =~= s);
    }
}

impl Selection {
    pub open spec fn wf(&self) -> bool {
        ascending(self.checked@)
    }

    pub open spec fn checked_set(&self) -> Set<usize> {
        self.checked@.to_set()
    }

    pub fn new() -> (r: Selection)
        ensures
            r.wf(),
            r.focused is None,
            r.checked@.len() == 0,
            r.anchor is None,
            r.selected is None,
    {
        Selection { focused: None, checked: Vec::new(), anchor: None, selected: None }
    }

    pub fn is_checked(&self, index: usize) -> (r: bool)
        ensures
            r == self.checked@.contains(index),
    {
        let mut i: usize = 0;
        while i < self.checked.len()
            invariant
                i <= self.checked@.len(),
                forall|k: int| 0 <= k < i ==> self.checked@[k] != index,
            decreases self.checked@.len() - i,
        {
            if self.checked[i] == index {
                assert(self.checked@[i as int] == index);
                return true;
            }
            i = i + 1;
        }
        false
    }

    /// Ctrl/cmd-click: flips the tile's check; it becomes focused and the
    /// anchor.
    pub fn toggle_checked(&mut self, index: usize)
        requires
            old(self).wf(),
        ensures
            final(self).wf(),
            final(self).checked_set() == flipped(old(self).checked_set(), index),
            final(self).focused == Some(index),
            final(self).anchor == Some(index),
            final(self).selected == old(self).selected,
    {
        let n = self.checked.len();
        let mut pos: usize = 0;
        while pos < n && self.checked[pos] < index
            invariant
                n == self.checked@.len(),
                pos <= n,
                forall|k: int| 0 <= k < pos ==> self.checked@[k] < index,
            decreases n - pos,
        {
            pos = pos + 1;
        }
        let ghost before = self.checked@;
        if pos < n && self.checked[pos] == index {
            self.checked.remove(pos);
            proof {
                assert forall|x: usize| #[trigger] self.checked@.contains(x) <==> (before.contains(x)
                    && x != index) by {
                    if self.checked@.contains(x) {
                        let k = choose|k: int| 0 <= k < self.checked@.len() && self.checked@[k] == x;
                        if k < pos {
                            assert(before[k] == x);
                        } else {
                            assert(before[k + 1] == x);
                            assert(before[pos as int] < before[k + 1]);
                        }
                    }
                    if before.contains(x) && x != index {
                        let k = choose|k: int| 0 <= k < before.len() && before[k] == x;
                        if k < pos {
                            assert(self.checked@[k] == x);
                        } else {
                            assert(k != pos);
                            assert(self.checked@[k - 1] == x);
                        }
                    }
                }
                assert(self.checked@.to_set() =~= before.to_set().remove(index));
            }
        } else {
            self.checked.insert(pos, index);
            proof {
                assert(!before.contains(index)) by {
                    if before.contains(index) {
                        let k = choose|k: int| 0 <= k < before.len() && before[k] == index;
                        if k >= pos {
                            assert(before[pos as int] <= before[k]);
                        }
                    }
                }
                assert forall|i: int, j: int| 0 <= i < j < self.checked@.len() implies self.checked@[i]
                    < self.checked@[j] by {
                    if j == pos {
                        assert(self.checked@[i] == before[i]);
                    } else if i == pos {
                        assert(self.checked@[j] == before[j - 1]);
                        assert(before[pos as int] <= before[j - 1]);
                    } else if i < pos {
                        assert(self.checked@[i] == before[i]);
                        if j < pos {
                            assert(self.checked@[j] == before[j]);
                        } else {
                            assert(self.checked@[j] == before[j - 1]);
                        }
                    } else {
                        assert(self.checked@[i] == before[i - 1]);
                        assert(self.checked@[j] == before[j - 1]);
                    }
                }
                assert forall|x: usize| #[trigger] self.checked@.contains(x) <==> (before.contains(x)
                    || x == index) by {
                    if self.checked@.contains(x) {
                        let k = choose|k: int| 0 <= k < self.checked@.len() && self.checked@[k] == x;
                        if k < pos {
                            assert(before[k] == x);
                        } else if k > pos {
                            assert(before[k - 1] == x);
                        }
                    }
                    if before.contains(x) {
                        let k = choose|k: int| 0 <= k < before.len() && before[k] == x;
                        if k < pos {
                            assert(self.checked@[k] == x);
                        } else {
                            assert(self.checked@[k + 1] == x);
                        }
                    }
                    if x == index {
                        assert(self.checked@[pos as int] == x);
                    }
                }
                assert(self.checked@.to_set() =~= before.to_set().insert(index));
            }
        }
        self.focused = Some(index);
        self.anchor = Some(index);
    }

    /// Shift-click: checks exactly the visible run from the anchor (or the
    /// focused tile, or the clicked one) to the clicked tile, which becomes
    /// focused. Nothing happens while nothing is visible.
    pub fn range_check(&mut self, vis: &[usize], index: usize)
        requires
            old(self).wf(),
            ascending(vis@),
        ensures
            final(self).wf(),
            vis@.len() == 0 ==> *final(self) == *old(self),
            vis@.len() > 0 ==> {
                &&& final(self).checked@ == range_of(
                    vis@,
                    match old(self).anchor {
                        Some(a) => a,
                        None => match old(self).focused {
                            Some(f) => f,
                            None => index,
                        },
                    },
                    index,
                )
                &&& final(self).focused == Some(index)
                &&& final(self).anchor == old(self).anchor
                &&& final(self).selected == old(self).selected
            },
    {
        if vis.len() == 0 {
            return;
        }
        let start = match self.anchor {
            Some(a) => a,
            None => match self.focused {
                Some(f) => f,
                None => index,
            },
        };
        let run = range_select(vis, start, index);
        proof {
            lemma_range_ascending(vis@, start, index);
        }
        self.checked = run;
        self.focused = Some(index);
    }

    /// Drops what the filter hides: the focus moves to the first visible
    /// entry, a hidden open image closes, hidden tiles are unchecked, and a
    /// hidden anchor follows the focus. Answers whether the open image
    /// closed.
    pub fn apply_filter(&mut self, vis: &[usize]) -> (closed: bool)
        requires
            old(self).wf(),
        ensures
            final(self).wf(),
            final(self).focused == match old(self).focused {
                Some(f) => if vis@.contains(f) {
                    Some(f)
                } else if vis@.len() > 0 {
                    Some(vis@[0])
                } else {
                    None
                },
                None => None,
            },
            closed == (old(self).selected matches Some(s) && !vis@.contains(s)),
            final(self).selected == if closed {
                None
            } else {
                old(self).selected
            },
            final(self).checked@ == old(self).checked@.filter(|i: usize| vis@.contains(i)),
            final(self).anchor == match old(self).anchor {
                Some(a) => if vis@.contains(a) {
                    Some(a)
                } else {
                    final(self).focused
                },
                None => None,
            },
    {
        if let Some(f) = self.focused {
            if !contains_index(vis, f) {
                self.focused = if vis.len() > 0 {
                    Some(vis[0])
                } else {
                    None
                };
            }
        }
        let mut closed = false;
        if let Some(s) = self.selected {
            if !contains_index(vis, s) {
                self.selected = None;
                closed = true;
            }
        }
        let ghost pred = |i: usize| vis@.contains(i);
        let ghost before = self.checked@;
        let mut kept: Vec<usize> = Vec::new();
        let mut k: usize = 0;
        let ghost mut last_at: int = 0;
        assert(before.take(0).filter(pred) =~= Seq::<usize>::empty()) by {
            reveal(Seq::filter);
        }
        while k < self.checked.len()
            invariant
                before == self.checked@,
                ascending(before),
                pred == (|i: usize| vis@.contains(i)),
                k <= before.len(),
                kept@ == before.take(k as int).filter(pred),
                kept@.len() > 0 ==> 0 <= last_at < k && before[last_at] == kept@.last(),
                ascending(kept@),
            decreases before.len() - k,
        {
            let x = self.checked[k];
            proof {
                before.take(k as int).lemma_filter_push(x, pred);
                assert(before.take(k + 1) =~= before.take(k as int).push(x));
            }
            if contains_index(vis, x) {
                proof {
                    if kept@.len() > 0 {
                        assert(before[last_at] < before[k as int]);
                    }
                    last_at = k as int;
                }
                kept.push(x);
            }
            k = k + 1;
        }
        assert(before.take(before.len() as int) =~= before);
        self.checked = kept;
        if let Some(a) = self.anchor {
            if !contains_index(vis, a) {
                self.anchor = self.focused;
            }
        }
        closed
    }


    /// Opening the tile at `index`: it becomes focused, the only checked tile
    /// and the anchor; an image opens in the lightbox, anything else closes
    /// it.
    pub fn open_entry(&mut self, entries: &Vec<Entry>, index: usize) -> (r: OpenAction)
        requires
            old(self).wf(),
        ensures
            final(self).wf(),
            index >= entries@.len() ==> *final(self) == *old(self) && r == OpenAction::Nothing,
            index < entries@.len() ==> {
                &&& final(self).focused == Some(index)
                &&& final(self).checked@ == seq![index]
                &&& final(self).anchor == Some(index)
                &&& final(self).selected == if entries@[index as int].is_image() {
                    Some(index)
                } else {
                    None
                }
                &&& match entries@[index as int] {
                    Entry::Folder(f) => r matches OpenAction::LoadFolder(p) && p@ == f.path@,
                    Entry::Media(m) => if m.kind == MediaKind::Image {
                        r == OpenAction::ShowImage
                    } else {
                        r matches OpenAction::PlayVideo(p) && p@ == m.path@
                    },
                }
            },
    {
        if index >= entries.len() {
            return OpenAction::Nothing;
        }
        self.focused = Some(index);
        let mut checked: Vec<usize> = Vec::new();
        checked.push(index);
        self.checked = checked;
        assert(self.checked@ =~= seq![index]);
        self.anchor = Some(index);
        match &entries[index] {
            Entry::Folder(f) => {
                self.selected = None;
                OpenAction::LoadFolder(f.path.copied())
            },
            Entry::Media(m) => if m.kind == MediaKind::Image {
                self.selected = Some(index);
                OpenAction::ShowImage
            } else {
                self.selected = None;
                OpenAction::PlayVideo(m.path.copied())
            },
        }
    }

    /// After a listing loads: nothing open or checked; with a path to
    /// restore, it is focused, checked and the anchor, and an image reopens
    /// when asked; otherwise (or when the path is gone) the first entry is
    /// focused.
    pub fn after_load(&mut self, entries: &Vec<Entry>, restore: Option<&LibPath>, reopen: bool)
        ensures
            final(self).wf(),
            match restore {
                Some(p) => match find_path(entries@, p@) {
                    Some(i) => {
                        &&& final(self).focused == Some(i as usize)
                        &&& final(self).checked@ == seq![i as usize]
                        &&& final(self).anchor == Some(i as usize)
                        &&& final(self).selected == if reopen && entries@[i].is_image() {
                            Some(i as usize)
                        } else {
                            None
                        }
                    },
                    None => {
                        &&& final(self).focused == if entries@.len() > 0 {
                            Some(0usize)
                        } else {
                            None
                        }
                        &&& final(self).checked@.len() == 0
                        &&& final(self).anchor is None
                        &&& final(self).selected is None
                    },
                },
                None => {
                    &&& final(self).focused == if entries@.len() > 0 {
                        Some(0usize)
                    } else {
                        None
                    }
                    &&& final(self).checked@.len() == 0
                    &&& final(self).anchor is None
                    &&& final(self).selected is None
                },
            },
    {
        self.checked = Vec::new();
        self.anchor = None;
        self.selected = None;
        self.focused = if entries.len() > 0 {
            Some(0)
        } else {
            None
        };
        if let Some(p) = restore {
            if let Some(i) = path_index(entries, p) {
                self.focused = Some(i);
                let mut checked: Vec<usize> = Vec::new();
                checked.push(i);
                self.checked = checked;
                assert(self.checked@ =~= seq![i]);
                self.anchor = Some(i);
                if reopen && entries[i].is_image_entry() {
                    self.selected = Some(i);
                }
            }
        }
    }

    /// A right-click on a tile opens its menu, unless the lightbox or a
    /// dialog is up: an unchecked tile becomes the only checked one and the
    /// anchor, and the tile is focused. Tells whether the menu opens.
    pub fn menu_at(&mut self, index: usize, dialog_open: bool) -> (opened: bool)
        requires
            old(self).wf(),
        ensures
            final(self).wf(),
            opened == (old(self).selected is None && !dialog_open),
            !opened ==> *final(self) == *old(self),
            opened ==> final(self).focused == Some(index) && final(self).selected is None,
            opened && old(self).checked@.contains(index) ==> final(self).checked@ == old(self).checked@
                && final(self).anchor == old(self).anchor,
            opened && !old(self).checked@.contains(index) ==> final(self).checked@ == seq![index]
                && final(self).anchor == Some(index),
    {
        if self.selected.is_some() || dialog_open {
            return false;
        }
        if !self.is_checked(index) {
            self.checked = Vec::new();
            self.checked.push(index);
            assert(self.checked@ =~= seq![index]);
            self.anchor = Some(index);
        }
        self.focused = Some(index);
        true
    }

    /// The entry a rename or a reload keeps in view: the open image, else
    /// the focused tile, when it is in the listing.
    pub fn current_index(&self, len: usize) -> (r: Option<usize>)
        ensures
            r == (match (if self.selected is Some { self.selected } else { self.focused }) {
                Some(i) => if i < len {
                    Some(i)
                } else {
                    None
                },
                None => None,
            }),
    {
        let pick = match self.selected {
            Some(i) => Some(i),
            None => self.focused,
        };
        match pick {
            Some(i) => if i < len {
                Some(i)
            } else {
                None
            },
            None => None,
        }
    }

    /// The entry the file manager reveals: the focused tile when checked,
    /// else the first checked tile in the listing, else the open image or
    /// the focused tile; none means the current folder.
    pub fn reveal_index(&self, len: usize) -> (r: Option<usize>)
        ensures
            r == reveal_of(self.checked@, self.focused, self.selected, len),
    {
        if self.checked.len() > 0 {
            if let Some(f) = self.focused {
                if f < len && self.is_checked(f) {
                    return Some(f);
                }
            }
            let mut k: usize = 0;
            while k < self.checked.len()
                invariant
                    k <= self.checked@.len(),
                    self.checked@.len() > 0,
                    !(self.focused matches Some(f) && f < len && self.checked@.contains(f)),
                    first_below(self.checked@, len, 0) == first_below(self.checked@, len, k as int),
                decreases self.checked@.len() - k,
            {
                if self.checked[k] < len {
                    return Some(self.checked[k]);
                }
                k = k + 1;
            }
        }
        let pick = match self.selected {
            Some(i) => Some(i),
            None => self.focused,
        };
        match pick {
            Some(i) => if i < len {
                Some(i)
            } else {
                None
            },
            None => None,
        }
    }

    /// The media paths a drag from tile `index` carries: the checked media
    /// when that tile is checked, else the tile itself when it is media.
    pub fn drag_indices(&self, entries: &Vec<Entry>, index: usize) -> (r: Vec<usize>)
        ensures
            r@ == if self.checked@.contains(index) {
                self.checked@.filter(|i: usize| i < entries@.len() && entries@[i as int] is Media)
            } else if index < entries@.len() && entries@[index as int] is Media {
                seq![index]
            } else {
                Seq::empty()
            },
    {
        let mut out: Vec<usize> = Vec::new();
        if self.is_checked(index) {
            let ghost pred = |i: usize| i < entries@.len() && entries@[i as int] is Media;
            let mut k: usize = 0;
            assert(self.checked@.take(0).filter(pred) =~= Seq::<usize>::empty()) by {
                reveal(Seq::filter);
            }
            while k < self.checked.len()
                invariant
                    k <= self.checked@.len(),
                    pred == (|i: usize| i < entries@.len() && entries@[i as int] is Media),
                    out@ == self.checked@.take(k as int).filter(pred),
                decreases self.checked@.len() - k,
            {
                let x = self.checked[k];
                proof {
                    self.checked@.take(k as int).lemma_filter_push(x, pred);
                    assert(self.checked@.take(k + 1) =~= self.checked@.take(k as int).push(x));
                }
                if x < entries.len() && !entries[x].is_folder() {
                    out.push(x);
                }
                k = k + 1;
            }
            assert(self.checked@.take(self.checked@.len() as int) =~= self.checked@);
        } else if index < entries.len() && !entries[index].is_folder() {
            out.push(index);
            assert(out@ =~= seq![index]);
        }
        out
    }

    /// What the file actions work on: the checked tiles; or else the open
    /// image; or else the focused tile.
    pub fn action_indices(&self) -> (r: Vec<usize>)
        ensures
            r@ == if self.checked@.len() > 0 {
                self.checked@
            } else {
                match self.selected {
                    Some(i) => seq![i],
                    None => match self.focused {
                        Some(i) => seq![i],
                        None => Seq::empty(),
                    },
                }
            },
    {
        if self.checked.len() > 0 {
            let mut out: Vec<usize> = Vec::new();
            let mut k: usize = 0;
            while k < self.checked.len()
                invariant
                    k <= self.checked@.len(),
                    out@ == self.checked@.take(k as int),
                decreases self.checked@.len() - k,
            {
                out.push(self.checked[k]);
                assert(out@ =~= self.checked@.take(k + 1));
                k = k + 1;
            }
            assert(self.checked@.take(self.checked@.len() as int) =~= self.checked@);
            out
        } else {
            let mut out: Vec<usize> = Vec::new();
            match self.selected {
                Some(i) => out.push(i),
                None => match self.focused {
                    Some(i) => out.push(i),
                    None => {},
                },
            }
            assert(out@ =~= match self.selected {
                Some(i) => seq![i],
                None => match self.focused {
                    Some(i) => seq![i],
                    None => Seq::empty(),
                },
            });
            out
        }
    }
}

/// The first index of `entries` whose path is `p`.
pub open spec fn find_path_from(entries: Seq<Entry>, p: Seq<Seq<char>>, k: int) -> Option<int>
    decreases entries.len() - k,
{
    if k < 0 || k >= entries.len() {
        None
    } else if entries[k].spec_path() == p {
        Some(k)
    } else {
        find_path_from(entries, p, k + 1)
    }
}

pub open spec fn find_path(entries: Seq<Entry>, p: Seq<Seq<char>>) -> Option<int> {
    find_path_from(entries, p, 0)
}

proof fn lemma_find_path_from(entries: Seq<Entry>, p: Seq<Seq<char>>, k: int)
    requires
        0 <= k,
    ensures
        find_path_from(entries, p, k) matches Some(i) ==> k <= i < entries.len(),
    decreases entries.len() - k,
{
    if k < entries.len() && entries[k].spec_path() != p {
        lemma_find_path_from(entries, p, k + 1);
    }
}

/// Where in the listing the entry with path `p` is.
pub fn path_index(entries: &Vec<Entry>, p: &LibPath) -> (r: Option<usize>)
    ensures
        r matches Some(i) ==> find_path(entries@, p@) == Some(i as int) && i < entries@.len(),
        r is None ==> find_path(entries@, p@) is None,
{
    proof {
        lemma_find_path_from(entries@, p@, 0);
    }
    let mut k: usize = 0;
    while k < entries.len()
        invariant
            k <= entries@.len(),
            find_path(entries@, p@) == find_path_from(entries@, p@, k as int),
        decreases entries@.len() - k,
    {
        if entries[k].path().same(p) {
            return Some(k);
        }
        k = k + 1;
    }
    None
}

/// The first entry of `s` from `k` on that is below `len`.
pub open spec fn first_below(s: Seq<usize>, len: usize, k: int) -> Option<usize>
    decreases s.len() - k,
{
    if k < 0 || k >= s.len() {
        None
    } else if s[k] < len {
        Some(s[k])
    } else {
        first_below(s, len, k + 1)
    }
}

pub open spec fn reveal_of(checked: Seq<usize>, focused: Option<usize>, selected: Option<usize>, len: usize) -> Option<usize> {
    let pick = match selected {
        Some(i) => Some(i),
        None => focused,
    };
    let fallback = match pick {
        Some(i) => if i < len {
            Some(i)
        } else {
            None
        },
        None => None,
    };
    if checked.len() > 0 {
        if focused matches Some(f) && f < len && checked.contains(f) {
            focused
        } else if first_below(checked, len, 0) is Some {
            first_below(checked, len, 0)
        } else {
            fallback
        }
    } else {
        fallback
    }
}

fn contains_index(v: &[usize], x: usize) -> (r: bool)
    ensures
        r == v@.contains(x),
{
    let mut i: usize = 0;
    while i < v.len()
        invariant
            i <= v@.len(),
            forall|k: int| 0 <= k < i ==> v@[k] != x,
        decreases v@.len() - i,
    {
        if v[i] == x {
            assert(v@[i as int] == x);
            return true;
        }
        i = i + 1;
    }
    false
}

} // verus!
