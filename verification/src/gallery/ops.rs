//! File jobs over several items: the clipboard, undo records, and the run
//! of a move, copy or rename that stops to ask when a name is taken.
//!
//! The caller carries out each item (deciding it with `media::fs` and
//! touching the disk) and reports how it went; the job decides what comes
//! next.

use vstd::prelude::*;

use crate::gallery::control::paths_of;
use crate::gallery::selection::{find_path, path_index};
use crate::media::fs::{
    copy_into, guarded, inside, move_dest, move_into, move_target, movable, moved, path_result, place_dest,
    place_target, placed, rename_dest, rename_target, rename_with, renamed, result_view, under_root,
    answers, steady, Collision, DestFacts, FsError, Placement,
};
use crate::media::types::Entry;
use crate::path::{file_name_of, parent_of, starts_with, LibPath};
use crate::text::{decimal, decimal_usize};

verus! {

/// Paths cut or copied for a later paste.
#[derive(Debug)]
pub enum Clip {
    Cut(Vec<LibPath>),
    Copy(Vec<LibPath>),
}

impl Clip {
    pub open spec fn spec_paths(&self) -> Seq<LibPath> {
        match self {
            Clip::Cut(p) => p@,
            Clip::Copy(p) => p@,
        }
    }

    pub fn paths(&self) -> (r: &Vec<LibPath>)
        ensures
            r@ == self.spec_paths(),
    {
        match self {
            Clip::Cut(p) => p,
            Clip::Copy(p) => p,
        }
    }

    /// Whether `p` waits, cut, for a paste (its tile shows dimmed).
    pub fn cuts(&self, p: &LibPath) -> (r: bool)
        ensures
            r == (self is Cut && exists|i: int|
                0 <= i < self.spec_paths().len() && (#[trigger] self.spec_paths()[i])@ == p@),
    {
        match self {
            Clip::Cut(ps) => {
                let mut i: usize = 0;
                while i < ps.len()
                    invariant
                        i <= ps@.len(),
                        self.spec_paths() == ps@,
                        self is Cut,
                        forall|k: int| 0 <= k < i ==> (#[trigger] ps@[k])@ != p@,
                    decreases ps@.len() - i,
                {
                    if ps[i].same(p) {
                        assert(self.spec_paths()[i as int]@ == p@);
                        return true;
                    }
                    i = i + 1;
                }
                false
            },
            Clip::Copy(_) => false,
        }
    }

    /// An equal clipboard, built anew.
    pub fn copied(&self) -> (r: Clip)
        ensures
            (self is Cut) == (r is Cut),
            paths_of(r.spec_paths()) == paths_of(self.spec_paths()),
    {
        match self {
            Clip::Cut(ps) => Clip::Cut(copy_paths(ps)),
            Clip::Copy(ps) => Clip::Copy(copy_paths(ps)),
        }
    }
}

pub fn copy_paths(v: &Vec<LibPath>) -> (r: Vec<LibPath>)
    ensures
        paths_of(r@) == paths_of(v@),
{
    let mut out: Vec<LibPath> = Vec::new();
    let mut i: usize = 0;
    while i < v.len()
        invariant
            i <= v@.len(),
            out@.len() == i,
            paths_of(out@) == paths_of(v@.take(i as int)),
        decreases v@.len() - i,
    {
        let ghost prev = out@;
        out.push(v[i].copied());
        assert forall|k: int| 0 <= k < out@.len() implies #[trigger] paths_of(out@)[k] == paths_of(
            v@.take(i + 1),
        )[k] by {
            if k < i {
                assert(out@[k] == prev[k]);
                assert(paths_of(prev)[k] == paths_of(v@.take(i as int))[k]);
            }
        }
        assert(paths_of(out@) =~= paths_of(v@.take(i + 1)));
        i = i + 1;
    }
    assert(v@.take(v@.len() as int) =~= v@);
    out
}

/// How to take back one finished step.
#[derive(Debug)]
pub enum UndoItem {
    /// Move the item at `from` back to `to`.
    PutBack { from: LibPath, to: LibPath },
    /// Send the new item at `path` to the Trash.
    Trash { path: LibPath },
}

impl UndoItem {
    /// Where the item is now.
    pub open spec fn spec_current(&self) -> Seq<Seq<char>> {
        match self {
            UndoItem::PutBack { from, .. } => from@,
            UndoItem::Trash { path } => path@,
        }
    }

    pub fn current(&self) -> (r: &LibPath)
        ensures
            r@ == self.spec_current(),
    {
        match self {
            UndoItem::PutBack { from, .. } => from,
            UndoItem::Trash { path } => path,
        }
    }
}

/// What a job does with each item.
#[derive(Debug)]
pub enum PendingKind {
    Move { dest_dir: LibPath },
    Copy { dest_dir: LibPath },
    Rename { new_name: String },
}

/// The record of one item done: a moved or renamed item goes back where it
/// was, a copy goes to the Trash.
pub fn undo_for(kind: &PendingKind, from: &LibPath, dest: LibPath) -> (r: UndoItem)
    ensures
        match kind {
            PendingKind::Copy { .. } => r matches UndoItem::Trash { path } && path@ == dest@,
            _ => r matches UndoItem::PutBack { from: f, to } && f@ == dest@ && to@ == from@,
        },
{
    match kind {
        PendingKind::Copy { .. } => UndoItem::Trash { path: dest },
        _ => UndoItem::PutBack { from: dest, to: from.copied() },
    }
}

/// A run of one kind of operation over several items.
#[derive(Debug)]
pub struct Job {
    pub kind: PendingKind,
    pub remaining: Vec<LibPath>,
    pub done: Vec<UndoItem>,
    /// The collision rule chosen for every item, once "apply to all" is on.
    pub apply: Option<Collision>,
    /// The item whose name was taken, while the user is asked.
    pub asking: Option<LibPath>,
    pub apply_all: bool,
    pub folder: LibPath,
    pub next: Option<LibPath>,
    pub reopen: bool,
    pub restore_clip: Option<Clip>,
}

/// What a job needs after an item is reported.
#[derive(Debug, PartialEq, Eq)]
pub enum Progress {
    /// Carry out the next item.
    Continue,
    /// Ask the user about the taken name; the job waits.
    Ask,
    /// Nothing was done and nothing is left: show the error.
    Failed(FsError),
    /// No item is left: finish the job.
    Finished,
}

/// How a finished job reports: reload `folder` focusing `focus`, and say
/// `message` with the undo records.
pub struct Finish {
    pub folder: LibPath,
    pub focus: LibPath,
    pub reopen: bool,
    pub message: String,
}

pub open spec fn moved_items(n: nat) -> Seq<char> {
    "Moved "@ + decimal(n) + " items"@
}

pub open spec fn copied_items(n: nat) -> Seq<char> {
    "Copied "@ + decimal(n) + " items"@
}

pub open spec fn opt_seq(o: Option<LibPath>) -> Seq<LibPath> {
    match o {
        Some(a) => seq![a],
        None => Seq::empty(),
    }
}

impl Job {
    pub fn new(
        kind: PendingKind,
        paths: Vec<LibPath>,
        folder: LibPath,
        next: Option<LibPath>,
        reopen: bool,
        restore_clip: Option<Clip>,
    ) -> (r: Job)
        ensures
            r.remaining@ == paths@,
            r.done@.len() == 0,
            r.apply is None,
            r.asking is None,
            !r.apply_all,
            r.folder == folder,
            r.next == next,
            r.reopen == reopen,
            r.restore_clip == restore_clip,
            r.kind == kind,
    {
        Job {
            kind,
            remaining: paths,
            done: Vec::new(),
            apply: None,
            asking: None,
            apply_all: false,
            folder,
            next,
            reopen,
            restore_clip,
        }
    }

    /// The rule for the next item: the one chosen for all, else refuse a
    /// taken name.
    pub fn collision(&self) -> (r: Collision)
        ensures
            r == match self.apply {
                Some(c) => c,
                None => Collision::Fail,
            },
    {
        match self.apply {
            Some(c) => c,
            None => Collision::Fail,
        }
    }

    /// How the next item went. A taken name stops the job to ask; any
    /// other error skips the item, unless it was the only one and nothing
    /// was done.
    pub fn record(&mut self, outcome: Result<UndoItem, FsError>) -> (r: Progress)
        requires
            old(self).asking is None,
            old(self).remaining@.len() > 0,
        ensures
            final(self).remaining@ == old(self).remaining@.drop_first(),
            final(self).kind == old(self).kind,
            final(self).folder == old(self).folder,
            final(self).next == old(self).next,
            final(self).reopen == old(self).reopen,
            final(self).restore_clip == old(self).restore_clip,
            final(self).apply == old(self).apply,
            match outcome {
                Ok(item) => {
                    &&& final(self).done@ == old(self).done@.push(item)
                    &&& final(self).asking is None
                    &&& r == if final(self).remaining@.len() == 0 {
                        Progress::Finished
                    } else {
                        Progress::Continue
                    }
                },
                Err(FsError::Collision) => {
                    &&& final(self).done@ == old(self).done@
                    &&& final(self).asking == Some(old(self).remaining@[0])
                    &&& !final(self).apply_all
                    &&& r == Progress::Ask
                },
                Err(e) => {
                    &&& final(self).done@ == old(self).done@
                    &&& final(self).asking is None
                    &&& r == if old(self).done@.len() == 0 && final(self).remaining@.len() == 0 {
                        Progress::Failed(e)
                    } else if final(self).remaining@.len() == 0 {
                        Progress::Finished
                    } else {
                        Progress::Continue
                    }
                },
            },
    {
        let from = self.remaining.remove(0);
        assert(self.remaining@ =~= old(self).remaining@.drop_first());
        match outcome {
            Ok(item) => {
                self.done.push(item);
                if self.remaining.len() == 0 {
                    Progress::Finished
                } else {
                    Progress::Continue
                }
            },
            Err(FsError::Collision) => {
                self.asking = Some(from);
                self.apply_all = false;
                Progress::Ask
            },
            Err(e) => {
                if self.done.len() == 0 && self.remaining.len() == 0 {
                    Progress::Failed(e)
                } else if self.remaining.len() == 0 {
                    Progress::Finished
                } else {
                    Progress::Continue
                }
            },
        }
    }

    /// The user's answer, carried out on the asked item: the job goes on,
    /// keeping the answer for every later item when "apply to all" is on;
    /// an error ends the job.
    pub fn resolve(&mut self, outcome: Result<UndoItem, FsError>, choice: Collision) -> (r: Progress)
        requires
            old(self).asking is Some,
        ensures
            final(self).remaining@ == old(self).remaining@,
            final(self).asking is None,
            match outcome {
                Ok(item) => {
                    &&& final(self).done@ == old(self).done@.push(item)
                    &&& final(self).apply == if old(self).apply_all {
                        Some(choice)
                    } else {
                        None
                    }
                    &&& r == if old(self).remaining@.len() == 0 {
                        Progress::Finished
                    } else {
                        Progress::Continue
                    }
                },
                Err(e) => r == Progress::Failed(e),
            },
    {
        self.asking = None;
        match outcome {
            Ok(item) => {
                self.done.push(item);
                self.apply = if self.apply_all {
                    Some(choice)
                } else {
                    None
                };
                if self.remaining.len() == 0 {
                    Progress::Finished
                } else {
                    Progress::Continue
                }
            },
            Err(e) => Progress::Failed(e),
        }
    }

    pub fn toggle_apply_all(&mut self)
        ensures
            final(self).apply_all == !old(self).apply_all,
            final(self).kind == old(self).kind,
            final(self).remaining == old(self).remaining,
            final(self).done == old(self).done,
            final(self).apply == old(self).apply,
            final(self).asking == old(self).asking,
            final(self).folder == old(self).folder,
            final(self).next == old(self).next,
            final(self).reopen == old(self).reopen,
            final(self).restore_clip == old(self).restore_clip,
    {
        self.apply_all = !self.apply_all;
    }

    /// Whether the items end up in the folder on screen: a rename always
    /// does.
    pub open spec fn lands_here(&self) -> bool {
        match self.kind {
            PendingKind::Move { dest_dir } => dest_dir@ == self.folder@,
            PendingKind::Copy { dest_dir } => dest_dir@ == self.folder@,
            PendingKind::Rename { .. } => true,
        }
    }

    pub open spec fn message_of(&self) -> Seq<char> {
        match self.kind {
            PendingKind::Move { .. } => moved_items(self.done@.len()),
            PendingKind::Copy { .. } => copied_items(self.done@.len()),
            PendingKind::Rename { .. } => "Renamed"@,
        }
    }

    /// The focus after reloading: the next item when the items went
    /// elsewhere, else the last item done, else the folder.
    pub open spec fn focus_of(&self) -> Seq<Seq<char>> {
        let given = if self.lands_here() {
            None
        } else {
            self.next
        };
        match given {
            Some(p) => p@,
            None => if self.done@.len() > 0 {
                self.done@.last().spec_current()
            } else {
                self.folder@
            },
        }
    }

    /// How the job reports at its end; nothing when no item was done.
    pub fn finish(&self) -> (r: Option<Finish>)
        ensures
            self.done@.len() == 0 ==> r is None,
            self.done@.len() > 0 ==> (r matches Some(f) && f.folder@ == self.folder@ && f.focus@
                == self.focus_of() && f.reopen == self.reopen && f.message@ == self.message_of()),
    {
        let n = self.done.len();
        if n == 0 {
            return None;
        }
        let here = match &self.kind {
            PendingKind::Move { dest_dir } => dest_dir.same(&self.folder),
            PendingKind::Copy { dest_dir } => dest_dir.same(&self.folder),
            PendingKind::Rename { .. } => true,
        };
        let focus = if !here && self.next.is_some() {
            match &self.next {
                Some(p) => p.copied(),
                None => self.folder.copied(),
            }
        } else {
            self.done[n - 1].current().copied()
        };
        let mut message = String::new();
        match &self.kind {
            PendingKind::Move { .. } => {
                message.append("Moved ");
                message.append(decimal_usize(n).as_str());
                message.append(" items");
            },
            PendingKind::Copy { .. } => {
                message.append("Copied ");
                message.append(decimal_usize(n).as_str());
                message.append(" items");
            },
            PendingKind::Rename { .. } => {
                message.append("Renamed");
            },
        }
        assert(message@ =~= self.message_of());
        Some(Finish { folder: self.folder.copied(), focus, reopen: self.reopen, message })
    }

    /// Giving up at the question: the clipboard the job was pasting from
    /// comes back holding the asked item and those left; what was done
    /// still finishes.
    pub fn cancel(self) -> (r: (Option<Clip>, Option<Finish>))
        ensures
            match (self.restore_clip, r.0) {
                (Some(Clip::Cut(_)), Some(Clip::Cut(p))) => p@ == match self.asking {
                    Some(a) => seq![a] + self.remaining@,
                    None => self.remaining@,
                },
                (Some(Clip::Copy(_)), Some(Clip::Copy(p))) => p@ == match self.asking {
                    Some(a) => seq![a] + self.remaining@,
                    None => self.remaining@,
                },
                (None, None) => true,
                _ => false,
            },
            self.done@.len() == 0 ==> r.1 is None,
            self.done@.len() > 0 ==> (r.1 matches Some(f) && f.folder@ == self.folder@ && f.focus@
                == self.focus_of() && f.message@ == self.message_of()),
    {
        let finish = self.finish();
        let Job { remaining, asking, restore_clip, .. } = self;
        let mut paths: Vec<LibPath> = Vec::new();
        let ghost head = opt_seq(asking);
        match asking {
            Some(a) => paths.push(a),
            None => {},
        }
        assert(paths@ =~= head);
        let mut rest = remaining;
        paths.append(&mut rest);
        let clip = match restore_clip {
            Some(Clip::Cut(_)) => Some(Clip::Cut(paths)),
            Some(Clip::Copy(_)) => Some(Clip::Copy(paths)),
            None => None,
        };
        (clip, finish)
    }
}

/// What Ctrl-V starts.
#[derive(Debug)]
pub enum PasteStart {
    /// A dialog is up, or the clipboard is empty.
    Nothing,
    /// Flat mode shows no single folder to paste into.
    FlatMode,
    /// Move (cut) or copy the clipboard's paths into the folder.
    Start(Job),
}

/// Ctrl-V: the clipboard's paths go into the current folder, moved when
/// they were cut (which empties the clipboard) and copied otherwise. A
/// cancelled question puts the clipboard back.
pub fn paste(clip: &mut Option<Clip>, flat_mode: bool, busy: bool, folder: &LibPath) -> (r: PasteStart)
    ensures
        busy ==> r is Nothing && *final(clip) == *old(clip),
        !busy && flat_mode ==> r is FlatMode && *final(clip) == *old(clip),
        !busy && !flat_mode && *old(clip) is None ==> r is Nothing && *final(clip) is None,
        !busy && !flat_mode && *old(clip) is Some ==> {
            let c = (*old(clip))->0;
            &&& r matches PasteStart::Start(job)
            &&& paths_of(job.remaining@) == paths_of(c.spec_paths())
            &&& job.done@.len() == 0
            &&& job.asking is None
            &&& job.apply is None
            &&& job.folder@ == folder@
            &&& job.next is None
            &&& !job.reopen
            &&& (c is Cut ==> (job.kind matches PendingKind::Move { dest_dir } && dest_dir@ == folder@))
            &&& (c is Copy ==> (job.kind matches PendingKind::Copy { dest_dir } && dest_dir@
                == folder@))
            &&& job.restore_clip matches Some(k) && (k is Cut) == (c is Cut) && paths_of(
                k.spec_paths(),
            ) == paths_of(c.spec_paths())
            &&& (c is Cut ==> *final(clip) is None)
            &&& (c is Copy ==> *final(clip) == *old(clip))
        },
{
    if busy {
        return PasteStart::Nothing;
    }
    if flat_mode {
        return PasteStart::FlatMode;
    }
    let (paths, restore, cut) = match &*clip {
        None => return PasteStart::Nothing,
        Some(c) => (copy_paths(c.paths()), c.copied(), matches!(c, Clip::Cut(_))),
    };
    let kind = if cut {
        *clip = None;
        PendingKind::Move { dest_dir: folder.copied() }
    } else {
        PendingKind::Copy { dest_dir: folder.copied() }
    };
    PasteStart::Start(Job::new(kind, paths, folder.copied(), None, false, Some(restore)))
}

/// "Move to" or "Copy to" a chosen folder: refused outside the library,
/// else a job over `paths` that focuses `next` when it ends.
pub fn dest_job(
    copy: bool,
    dest: &LibPath,
    paths: Vec<LibPath>,
    folder: &LibPath,
    root: &LibPath,
    next: Option<LibPath>,
) -> (r: Result<Job, FsError>)
    ensures
        !inside(dest@, root@) ==> r == Err::<Job, FsError>(FsError::OutsideRoot),
        inside(dest@, root@) ==> (r matches Ok(job) && job.remaining@ == paths@ && job.done@.len() == 0
            && job.asking is None && job.apply is None && job.folder@ == folder@ && job.next == next
            && !job.reopen && job.restore_clip is None && (copy ==> (job.kind matches PendingKind::Copy {
            dest_dir,
        } && dest_dir@ == dest@)) && (!copy ==> (job.kind matches PendingKind::Move { dest_dir }
            && dest_dir@ == dest@))),
{
    if !under_root(dest, root) {
        return Err(FsError::OutsideRoot);
    }
    let kind = if copy {
        PendingKind::Copy { dest_dir: dest.copied() }
    } else {
        PendingKind::Move { dest_dir: dest.copied() }
    };
    Ok(Job::new(kind, paths, folder.copied(), next, false, None))
}

/// How a rename that refuses a taken name went.
#[derive(Debug)]
pub enum RenameStart {
    /// Renamed: this undoes it.
    Done(UndoItem),
    /// The name is taken: ask, with a job over this one item.
    Ask(Job),
    Failed(FsError),
}

pub fn rename_start(
    from: LibPath,
    new_name: String,
    outcome: Result<LibPath, FsError>,
    folder: LibPath,
    reopen: bool,
) -> (r: RenameStart)
    ensures
        outcome matches Ok(dest) ==> (r matches RenameStart::Done(UndoItem::PutBack { from: f, to })
            && f@ == dest@ && to@ == from@),
        outcome == Err::<LibPath, FsError>(FsError::Collision) ==> (r matches RenameStart::Ask(job)
            && job.asking == Some(from) && job.remaining@.len() == 0 && job.done@.len() == 0
            && job.apply is None && !job.apply_all && job.folder == folder && job.next is None
            && job.reopen == reopen && job.restore_clip is None && job.kind == PendingKind::Rename {
            new_name,
        }),
        (outcome matches Err(e) && e != FsError::Collision) ==> r == RenameStart::Failed(outcome->Err_0),
{
    match outcome {
        Ok(dest) => RenameStart::Done(UndoItem::PutBack { from: dest, to: from }),
        Err(FsError::Collision) => {
            let mut job = Job::new(
                PendingKind::Rename { new_name },
                Vec::new(),
                folder,
                None,
                reopen,
                None,
            );
            job.asking = Some(from);
            RenameStart::Ask(job)
        },
        Err(e) => RenameStart::Failed(e),
    }
}

impl Job {
    /// Where item `from` would land, before collisions: the destination
    /// folder of a move or copy, or the new name beside it.
    pub fn target(&self, from: &LibPath, root: &LibPath) -> (r: Result<LibPath, FsError>)
        ensures
            path_result(r) == (match self.kind {
                PendingKind::Move { dest_dir } => move_dest(from@, dest_dir@, root@),
                PendingKind::Copy { dest_dir } => if !movable(from@, root@) {
                    Err(FsError::OutsideRoot)
                } else {
                    place_dest(from@, dest_dir@, root@)
                },
                PendingKind::Rename { new_name } => rename_dest(from@, new_name@, root@),
            }),
    {
        match &self.kind {
            PendingKind::Move { dest_dir } => move_target(from, dest_dir, root),
            PendingKind::Copy { dest_dir } => {
                guarded(from, root)?;
                place_target(from, dest_dir, root)
            },
            PendingKind::Rename { new_name } => rename_target(from, new_name.as_str(), root),
        }
    }

    /// What carrying out item `from` comes to, given what the disk says of
    /// its destination.
    pub fn plan<F: Fn(&str) -> bool>(
        &self,
        from: &LibPath,
        root: &LibPath,
        collision: Collision,
        facts: &DestFacts<F>,
    ) -> (r: Result<Placement, FsError>)
        requires
            steady(facts.taken),
        ensures
            result_view(r) == (match self.kind {
                PendingKind::Move { dest_dir } => moved(
                    from@,
                    dest_dir@,
                    root@,
                    collision,
                    facts.same,
                    answers(facts.taken),
                    facts.pid,
                ),
                PendingKind::Copy { dest_dir } => if !movable(from@, root@) {
                    Err(FsError::OutsideRoot)
                } else {
                    placed(
                        from@,
                        dest_dir@,
                        root@,
                        collision,
                        true,
                        facts.same,
                        answers(facts.taken),
                        facts.pid,
                    )
                },
                PendingKind::Rename { new_name } => renamed(
                    from@,
                    new_name@,
                    root@,
                    collision,
                    facts.same,
                    answers(facts.taken),
                    facts.pid,
                ),
            }),
    {
        match &self.kind {
            PendingKind::Move { dest_dir } => move_into(from, dest_dir, root, collision, facts),
            PendingKind::Copy { dest_dir } => copy_into(from, dest_dir, root, collision, facts),
            PendingKind::Rename { new_name } => rename_with(
                from,
                new_name.as_str(),
                root,
                collision,
                facts,
            ),
        }
    }

    /// The name shown in the collision question: the asked item's file
    /// name, or "item".
    pub fn asked_name(&self) -> (r: String)
        ensures
            r@ == (match self.asking {
                Some(a) => match file_name_of(a@) {
                    Some(n) => n,
                    None => "item"@,
                },
                None => "item"@,
            }),
    {
        match &self.asking {
            Some(a) => match a.file_name() {
                Some(n) => n,
                None => String::from_str("item"),
            },
            None => String::from_str("item"),
        }
    }
}

/// Trash: keep the paths that lie strictly inside the library.
pub fn trash_candidates(paths: &Vec<LibPath>, root: &LibPath) -> (r: Vec<LibPath>)
    ensures
        paths_of(r@) == paths_of(paths@).filter(|p: Seq<Seq<char>>| movable(p, root@)),
{
    let ghost keep = |p: Seq<Seq<char>>| movable(p, root@);
    let mut out: Vec<LibPath> = Vec::new();
    let mut i: usize = 0;
    assert(paths_of(paths@).take(0).filter(keep) =~= Seq::<Seq<Seq<char>>>::empty()) by {
        reveal(Seq::filter);
    }
    while i < paths.len()
        invariant
            i <= paths@.len(),
            keep == (|p: Seq<Seq<char>>| movable(p, root@)),
            paths_of(out@) == paths_of(paths@).take(i as int).filter(keep),
        decreases paths@.len() - i,
    {
        proof {
            paths_of(paths@).take(i as int).lemma_filter_push(paths@[i as int]@, keep);
            assert(paths_of(paths@).take(i + 1) =~= paths_of(paths@).take(i as int).push(
                paths@[i as int]@,
            ));
        }
        if !paths[i].same(root) && under_root(&paths[i], root) {
            let ghost prev = out@;
            out.push(paths[i].copied());
            assert(paths_of(out@) =~= paths_of(prev).push(paths@[i as int]@));
        }
        i = i + 1;
    }
    assert(paths_of(paths@).take(paths@.len() as int) =~= paths_of(paths@));
    out
}

/// The question before trashing: none for a single file; otherwise how
/// many items go, and how many more lie inside the folders among them.
pub open spec fn trash_question(n: nat, extra: nat) -> Option<Seq<char>> {
    if n <= 1 && extra == 0 {
        None
    } else if n == 1 {
        Some("Move this folder and "@ + decimal(extra) + " items inside to Trash?"@)
    } else if extra > 0 {
        Some("Move "@ + decimal(n) + " items ("@ + decimal(extra) + " inside folders) to Trash?"@)
    } else {
        Some("Move "@ + decimal(n) + " items to Trash?"@)
    }
}

pub fn trash_prompt(n: usize, extra: usize) -> (r: Option<String>)
    ensures
        r matches Some(t) ==> trash_question(n as nat, extra as nat) == Some(t@),
        r is None ==> trash_question(n as nat, extra as nat) is None,
{
    if n <= 1 && extra == 0 {
        return None;
    }
    let mut t = String::new();
    if n == 1 {
        t.append("Move this folder and ");
        t.append(decimal_usize(extra).as_str());
        t.append(" items inside to Trash?");
    } else if extra > 0 {
        t.append("Move ");
        t.append(decimal_usize(n).as_str());
        t.append(" items (");
        t.append(decimal_usize(extra).as_str());
        t.append(" inside folders) to Trash?");
    } else {
        t.append("Move ");
        t.append(decimal_usize(n).as_str());
        t.append(" items to Trash?");
    }
    Some(t)
}

/// Whether the lightbox shows the next item after trashing: it was open
/// and the item to focus next is an image.
pub fn trash_reopens(showing: bool, entries: &Vec<Entry>, next: &Option<LibPath>) -> (r: bool)
    ensures
        r == (showing && (next matches Some(p) && (find_path(entries@, p@) matches Some(i)
            && entries@[i].is_image()))),
{
    if !showing {
        return false;
    }
    match next {
        Some(p) => match path_index(entries, p) {
            Some(i) => entries[i].is_image_entry(),
            None => false,
        },
        None => false,
    }
}

/// Runs that go item by item and stop at an error before anything was
/// done: trashing and duplicating.
#[derive(Clone, Copy, Debug, PartialEq, Eq, Structural)]
pub enum BatchKind {
    Trash,
    Duplicate,
}

pub struct Batch {
    pub kind: BatchKind,
    pub done: Vec<UndoItem>,
    pub folder: LibPath,
    pub next: Option<LibPath>,
    pub reopen: bool,
}

/// The folder on screen once `path` goes to the Trash: when it lies
/// inside `path`, the parent of `path` if that is in the library, else the
/// root.
pub open spec fn folder_after(folder: Seq<Seq<char>>, path: Seq<Seq<char>>, root: Seq<Seq<char>>) -> Seq<
    Seq<char>,
> {
    if folder == path || starts_with(folder, path) {
        match parent_of(path) {
            Some(p) => if inside(p, root) {
                p
            } else {
                root
            },
            None => root,
        }
    } else {
        folder
    }
}

impl Batch {
    pub fn new(kind: BatchKind, folder: LibPath, next: Option<LibPath>, reopen: bool) -> (r: Batch)
        ensures
            r.kind == kind,
            r.done@.len() == 0,
            r.folder == folder,
            r.next == next,
            r.reopen == reopen,
    {
        Batch { kind, done: Vec::new(), folder, next, reopen }
    }

    /// Before trashing `path`: the folder on screen gives way when it lies
    /// inside, and then the lightbox does not reopen.
    pub fn leaving(&mut self, path: &LibPath, root: &LibPath)
        ensures
            final(self).folder@ == folder_after(old(self).folder@, path@, root@),
            final(self).reopen == (old(self).reopen && !(old(self).folder@ == path@ || starts_with(
                old(self).folder@,
                path@,
            ))),
            final(self).done == old(self).done,
            final(self).kind == old(self).kind,
            final(self).next == old(self).next,
    {
        if self.folder.same(path) || self.folder.starts_with(path) {
            self.folder = match path.parent() {
                Some(p) => if under_root(&p, root) {
                    p
                } else {
                    root.copied()
                },
                None => root.copied(),
            };
            self.reopen = false;
        }
    }

    /// One item's outcome: an error stops the run when nothing was done
    /// yet, and is skipped after that.
    pub fn record(&mut self, outcome: Result<UndoItem, FsError>) -> (stop: Option<FsError>)
        ensures
            final(self).kind == old(self).kind,
            final(self).folder == old(self).folder,
            final(self).next == old(self).next,
            final(self).reopen == old(self).reopen,
            outcome matches Ok(item) ==> final(self).done@ == old(self).done@.push(item) && stop is None,
            outcome matches Err(e) ==> final(self).done@ == old(self).done@ && stop == (if old(
                self,
            ).done@.len() == 0 {
                Some(e)
            } else {
                None
            }),
    {
        match outcome {
            Ok(item) => {
                self.done.push(item);
                None
            },
            Err(e) => if self.done.len() == 0 {
                Some(e)
            } else {
                None
            },
        }
    }

    pub open spec fn message_of(&self) -> Seq<char> {
        match self.kind {
            BatchKind::Trash => "Moved "@ + decimal(self.done@.len()) + " items to Trash"@,
            BatchKind::Duplicate => "Duplicated "@ + decimal(self.done@.len()) + " items"@,
        }
    }

    /// The focus after reloading: the given next item, else the last item
    /// done.
    pub open spec fn focus_of(&self) -> Seq<Seq<char>> {
        match self.next {
            Some(p) => p@,
            None => if self.done@.len() > 0 {
                self.done@.last().spec_current()
            } else {
                self.folder@
            },
        }
    }

    pub fn finish(&self) -> (r: Option<Finish>)
        ensures
            self.done@.len() == 0 ==> r is None,
            self.done@.len() > 0 ==> (r matches Some(f) && f.folder@ == self.folder@ && f.focus@
                == self.focus_of() && f.reopen == self.reopen && f.message@ == self.message_of()),
    {
        let n = self.done.len();
        if n == 0 {
            return None;
        }
        let focus = match &self.next {
            Some(p) => p.copied(),
            None => self.done[n - 1].current().copied(),
        };
        let mut message = String::new();
        match self.kind {
            BatchKind::Trash => {
                message.append("Moved ");
                message.append(decimal_usize(n).as_str());
                message.append(" items to Trash");
            },
            BatchKind::Duplicate => {
                message.append("Duplicated ");
                message.append(decimal_usize(n).as_str());
                message.append(" items");
            },
        }
        Some(Finish { folder: self.folder.copied(), focus, reopen: self.reopen, message })
    }
}

/// Taking back the last job: its records, last one first; the first
/// failure stops.
pub struct UndoRun {
    pub left: Vec<UndoItem>,
    pub last: Option<LibPath>,
}

impl UndoRun {
    pub fn new(items: Vec<UndoItem>) -> (r: UndoRun)
        ensures
            r.left@ == items@,
            r.last is None,
    {
        UndoRun { left: items, last: None }
    }

    /// The record to take back next.
    pub fn next(&self) -> (r: Option<&UndoItem>)
        ensures
            self.left@.len() == 0 ==> r is None,
            self.left@.len() > 0 ==> r == Some(&self.left@.last()),
    {
        if self.left.len() == 0 {
            None
        } else {
            Some(&self.left[self.left.len() - 1])
        }
    }

    /// How taking back the next record went; tells whether to go on.
    pub fn record(&mut self, outcome: Result<LibPath, FsError>) -> (go_on: bool)
        requires
            old(self).left@.len() > 0,
        ensures
            final(self).left@ == old(self).left@.drop_last(),
            go_on == outcome is Ok,
            outcome matches Ok(p) ==> final(self).last == Some(p),
            outcome is Err ==> final(self).last == old(self).last,
    {
        self.left.pop();
        match outcome {
            Ok(p) => {
                self.last = Some(p);
                true
            },
            Err(_) => false,
        }
    }

    /// The focus after reloading: the last item put back, or the folder.
    pub fn focus(&self, folder: &LibPath) -> (r: LibPath)
        ensures
            r@ == (match self.last {
                Some(p) => p@,
                None => folder@,
            }),
    {
        match &self.last {
            Some(p) => p.copied(),
            None => folder.copied(),
        }
    }
}

} // verus!
