//! Small decisions of the gallery window: going up, following a crumb,
//! what Escape closes, when the folder watcher reloads, what a drop does,
//! and the texts of the status bar and of a copied path.

use vstd::prelude::*;
use vstd::string::*;

use crate::gallery::nav::{drops_into, filter_internal_drop};
use crate::media::fs::{inside, under_root};
use crate::media::types::{is_media_path, kind_of, Entry};
use crate::path::{parent_of, render, starts_with, LibPath};

verus! {

/// Where "up" leads: the parent folder, while browsing below the root and
/// only when the parent is still inside the library.
pub open spec fn up_of(folder: Seq<Seq<char>>, root: Seq<Seq<char>>, flat_mode: bool) -> Option<
    Seq<Seq<char>>,
> {
    if flat_mode || folder == root {
        None
    } else {
        match parent_of(folder) {
            Some(p) => if starts_with(p, root) {
                Some(p)
            } else {
                None
            },
            None => None,
        }
    }
}

pub fn up_target(folder: &LibPath, root: &LibPath, flat_mode: bool) -> (r: Option<LibPath>)
    ensures
        r matches Some(p) ==> up_of(folder@, root@, flat_mode) == Some(p@),
        r is None ==> up_of(folder@, root@, flat_mode) is None,
{
    if flat_mode || folder.same(root) {
        return None;
    }
    match folder.parent() {
        Some(p) => if p.starts_with(root) {
            Some(p)
        } else {
            None
        },
        None => None,
    }
}

/// A breadcrumb loads its folder when that is another folder inside the
/// library.
pub fn crumb_opens(path: &LibPath, folder: &LibPath, root: &LibPath) -> (r: bool)
    ensures
        r == (path@ != folder@ && starts_with(path@, root@)),
{
    !path.same(folder) && path.starts_with(root)
}

/// What Escape closes, the first of these that is open.
#[derive(Clone, Copy, Debug, PartialEq, Eq, Structural)]
pub enum CloseStep {
    /// The tile's context menu.
    DismissMenu,
    /// The question about a name collision, which cancels the job.
    CancelCollision,
    /// The cut clipboard, forgotten.
    ForgetCut,
    /// The lightbox, with its slideshow.
    CloseLightbox,
    Nothing,
}

pub fn close_step(menu_open: bool, asking: bool, cut: bool, showing: bool) -> (r: CloseStep)
    ensures
        r == (if menu_open {
            CloseStep::DismissMenu
        } else if asking {
            CloseStep::CancelCollision
        } else if cut {
            CloseStep::ForgetCut
        } else if showing {
            CloseStep::CloseLightbox
        } else {
            CloseStep::Nothing
        }),
{
    if menu_open {
        CloseStep::DismissMenu
    } else if asking {
        CloseStep::CancelCollision
    } else if cut {
        CloseStep::ForgetCut
    } else if showing {
        CloseStep::CloseLightbox
    } else {
        CloseStep::Nothing
    }
}

/// What the folder watcher does with a new stamp of the listing.
#[derive(Clone, Copy, Debug, PartialEq, Eq, Structural)]
pub enum WatchStep {
    /// Nothing changed, or the window is busy: keep the stamp.
    Keep,
    /// The first stamp: remember it without reloading.
    Remember(u64),
    /// The listing changed: remember the stamp and reload.
    Reload(u64),
}

pub fn watch_step(stamp: Option<u64>, next: u64, busy: bool) -> (r: WatchStep)
    ensures
        r == (if busy || stamp == Some(next) {
            WatchStep::Keep
        } else if stamp is None {
            WatchStep::Remember(next)
        } else {
            WatchStep::Reload(next)
        }),
{
    if busy {
        return WatchStep::Keep;
    }
    match stamp {
        Some(s) => if s == next {
            WatchStep::Keep
        } else {
            WatchStep::Reload(next)
        },
        None => WatchStep::Remember(next),
    }
}

/// A path dropped from outside the window, with what the disk says of it.
pub struct Dropped {
    pub path: LibPath,
    pub is_dir: bool,
    pub is_file: bool,
}

pub open spec fn dropped_media(d: Dropped) -> bool {
    d.is_file && kind_of(d.path@) is Some
}

/// The media files among the dropped paths, in order.
pub open spec fn media_of(ds: Seq<Dropped>) -> Seq<Seq<Seq<char>>>
    decreases ds.len(),
{
    if ds.len() == 0 {
        Seq::empty()
    } else if dropped_media(ds.last()) {
        media_of(ds.drop_last()).push(ds.last().path@)
    } else {
        media_of(ds.drop_last())
    }
}

/// The folders among the dropped paths, in order.
pub open spec fn dirs_of(ds: Seq<Dropped>) -> Seq<Seq<Seq<char>>>
    decreases ds.len(),
{
    if ds.len() == 0 {
        Seq::empty()
    } else if ds.last().is_dir {
        dirs_of(ds.drop_last()).push(ds.last().path@)
    } else {
        dirs_of(ds.drop_last())
    }
}

pub open spec fn paths_of(v: Seq<LibPath>) -> Seq<Seq<Seq<char>>> {
    v.map_values(|p: LibPath| p@)
}

fn pick(ds: &Vec<Dropped>, media: bool) -> (r: Vec<LibPath>)
    ensures
        media ==> paths_of(r@) == media_of(ds@),
        !media ==> paths_of(r@) == dirs_of(ds@),
{
    let mut out: Vec<LibPath> = Vec::new();
    let mut i: usize = 0;
    while i < ds.len()
        invariant
            i <= ds@.len(),
            media ==> paths_of(out@) == media_of(ds@.take(i as int)),
            !media ==> paths_of(out@) == dirs_of(ds@.take(i as int)),
        decreases ds@.len() - i,
    {
        assert(ds@.take(i + 1).drop_last() =~= ds@.take(i as int));
        assert(ds@.take(i + 1).last() == ds@[i as int]);
        let d = &ds[i];
        let keep = if media {
            d.is_file && is_media_path(&d.path)
        } else {
            d.is_dir
        };
        if keep {
            out.push(d.path.copied());
        }
        assert(paths_of(out@) =~= if media {
            media_of(ds@.take(i + 1))
        } else {
            dirs_of(ds@.take(i + 1))
        });
        i = i + 1;
    }
    assert(ds@.take(ds@.len() as int) =~= ds@);
    out
}

/// What a drop from outside the window does.
#[derive(Debug, PartialEq, Eq)]
pub enum DropPlan {
    Ignore,
    /// A single folder dropped on the window becomes the library.
    OpenLibrary(LibPath),
    /// Import these media files into the folder; copy unless alt is held.
    Place(Vec<LibPath>, LibPath, bool),
}

/// Paths dropped from outside: onto a folder tile (`dest`) they are
/// imported there; onto the window a lone folder opens as the library,
/// and media files are imported into the current folder when it lies in
/// the library. Nothing happens while a dialog is up, nor in flat mode
/// except opening a library.
pub fn external_drop(
    dest: Option<&LibPath>,
    items: &Vec<Dropped>,
    flat_mode: bool,
    busy: bool,
    alt: bool,
    folder: &LibPath,
    root: &LibPath,
) -> (r: DropPlan)
    ensures
        busy ==> r == DropPlan::Ignore,
        !busy && dest is Some ==> (if flat_mode {
            r == DropPlan::Ignore
        } else {
            r matches DropPlan::Place(ps, d, copy) && paths_of(ps@) == media_of(items@) && d@
                == dest->0@ && copy == !alt
        }),
        !busy && dest is None ==> (if media_of(items@).len() == 0 && dirs_of(items@).len() == 1 {
            r matches DropPlan::OpenLibrary(p) && p@ == dirs_of(items@)[0]
        } else if media_of(items@).len() > 0 && !flat_mode && inside(folder@, root@) {
            r matches DropPlan::Place(ps, d, copy) && paths_of(ps@) == media_of(items@) && d@
                == folder@ && copy == !alt
        } else {
            r == DropPlan::Ignore
        }),
{
    if busy {
        return DropPlan::Ignore;
    }
    let media = pick(items, true);
    let dirs = pick(items, false);
    match dest {
        Some(d) => {
            if flat_mode {
                return DropPlan::Ignore;
            }
            DropPlan::Place(media, d.copied(), !alt)
        },
        None => {
            if media.len() == 0 && dirs.len() == 1 {
                return DropPlan::OpenLibrary(dirs[0].copied());
            }
            if media.len() > 0 && !flat_mode {
                if !under_root(folder, root) {
                    return DropPlan::Ignore;
                }
                return DropPlan::Place(media, folder.copied(), !alt);
            }
            DropPlan::Ignore
        },
    }
}

/// The hint shown while something is dragged over the window.
#[derive(Clone, Copy, Debug, PartialEq, Eq, Structural)]
pub enum DropHint {
    ImportHere,
    OpenLibrary,
}

pub fn drop_hint(items: &Vec<Dropped>) -> (r: Option<DropHint>)
    ensures
        r == (if exists|i: int| 0 <= i < items@.len() && dropped_media(#[trigger] items@[i]) {
            Some(DropHint::ImportHere)
        } else if (exists|i: int| 0 <= i < items@.len() && (#[trigger] items@[i]).is_dir) && (forall|
            i: int,
        | 0 <= i < items@.len() ==> (#[trigger] items@[i]).is_dir) {
            Some(DropHint::OpenLibrary)
        } else {
            None
        }),
{
    let mut any_media = false;
    let mut any_dir = false;
    let mut all_dir = true;
    let mut i: usize = 0;
    while i < items.len()
        invariant
            i <= items@.len(),
            any_media == exists|k: int| 0 <= k < i && dropped_media(#[trigger] items@[k]),
            any_dir == exists|k: int| 0 <= k < i && (#[trigger] items@[k]).is_dir,
            all_dir == forall|k: int| 0 <= k < i ==> (#[trigger] items@[k]).is_dir,
        decreases items@.len() - i,
    {
        let d = &items[i];
        if d.is_file && is_media_path(&d.path) {
            any_media = true;
        }
        if d.is_dir {
            any_dir = true;
        } else {
            all_dir = false;
        }
        i = i + 1;
    }
    if any_media {
        Some(DropHint::ImportHere)
    } else if any_dir && all_dir {
        Some(DropHint::OpenLibrary)
    } else {
        None
    }
}

/// Tiles dropped on a folder tile: the paths that may move there, and
/// whether alt asks for a copy. Nothing in flat mode or while a dialog is
/// up.
pub fn tile_drop(paths: &Vec<LibPath>, dest: &LibPath, flat_mode: bool, busy: bool, alt: bool) -> (r:
    Option<(Vec<LibPath>, bool)>)
    ensures
        flat_mode || busy ==> r is None,
        !(flat_mode || busy) ==> (r matches Some((ps, copy)) && copy == alt && paths_of(ps@)
            == paths_of(paths@.filter(drops_into(dest@)))),
{
    if flat_mode || busy {
        return None;
    }
    let ps = filter_internal_drop(paths, dest);
    assert(paths_of(ps@) =~= paths_of(paths@.filter(drops_into(dest@))));
    Some((ps, alt))
}

/// Texts written one after another with a newline between them.
pub open spec fn joined_lines(ls: Seq<Seq<char>>) -> Seq<char>
    decreases ls.len(),
{
    if ls.len() == 0 {
        Seq::empty()
    } else if ls.len() == 1 {
        ls[0]
    } else {
        joined_lines(ls.drop_last()) + seq!['\n'] + ls.last()
    }
}

pub open spec fn shown_paths(ps: Seq<Seq<Seq<char>>>) -> Seq<Seq<char>> {
    ps.map_values(|p: Seq<Seq<char>>| render(p))
}

/// What "copy path" puts on the clipboard: the paths one per line, or the
/// current folder when there are none.
pub fn clipboard_text(paths: &Vec<LibPath>, folder: &LibPath) -> (r: String)
    ensures
        paths@.len() == 0 ==> r@ == render(folder@),
        paths@.len() > 0 ==> r@ == joined_lines(shown_paths(paths_of(paths@))),
{
    if paths.len() == 0 {
        return folder.to_text();
    }
    let ghost all = shown_paths(paths_of(paths@));
    let mut out = paths[0].to_text();
    let mut i: usize = 1;
    assert(all.take(1) =~= seq![all[0]]);
    while i < paths.len()
        invariant
            1 <= i <= paths@.len(),
            all == shown_paths(paths_of(paths@)),
            out@ == joined_lines(all.take(i as int)),
        decreases paths@.len() - i,
    {
        assert(all.take(i + 1).drop_last() =~= all.take(i as int));
        out.append("\n");
        out.append(paths[i].to_text().as_str());
        proof {
            reveal_strlit("\n");
        }
        assert(out@ =~= joined_lines(all.take(i + 1)));
        i = i + 1;
    }
    assert(all.take(paths@.len() as int) =~= all);
    out
}

/// The path in the status bar: the focused entry's, or the folder's.
pub fn status_path(entries: &Vec<Entry>, focused: Option<usize>, folder: &LibPath) -> (r: String)
    ensures
        r@ == (match focused {
            Some(f) => if f < entries@.len() {
                render(entries@[f as int].spec_path())
            } else {
                render(folder@)
            },
            None => render(folder@),
        }),
{
    match focused {
        Some(f) => if f < entries.len() {
            entries[f].path().to_text()
        } else {
            folder.to_text()
        },
        None => folder.to_text(),
    }
}

} // verus!
