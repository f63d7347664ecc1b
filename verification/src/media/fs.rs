//! The rules for changing the library on disk: which names are valid, what
//! stays inside the library, where a renamed, moved, copied or imported item
//! lands, and what a name collision does.
//!
//! Each operation is decided from plain facts about the disk that the caller
//! gathered (whether two paths are the same file) or asks a probe of the
//! disk (whether a name is taken in a folder), and answers with the destination and the transfer to carry
//! out, or with the error the operation reports.

use vstd::prelude::*;

use crate::media::types::path_ext;
use crate::path::{
    cur_part, ext_of, file_name_of, is_normal, parent_of, root_part, split_name, starts_with,
    stem_of, up_part, LibPath,
};
use crate::text::{decimal, decimal_string, has_char, trim, trim_str};

verus! {

#[derive(Clone, Copy, Debug, PartialEq, Eq, Structural)]
pub enum FsError {
    InvalidName,
    Collision,
    OutsideRoot,
    Nested,
    Io,
}

pub open spec fn message(e: FsError) -> Seq<char> {
    match e {
        FsError::InvalidName => "Use a single name, without / or \\."@,
        FsError::Collision => "That name is already taken."@,
        FsError::OutsideRoot => "That stays inside this library."@,
        FsError::Nested => "Can't move a folder into itself."@,
        FsError::Io => "Could not update the disk."@,
    }
}

impl FsError {
    /// The sentence shown for the error.
    pub fn as_str(self) -> (r: &'static str)
        ensures
            r@ == message(self),
    {
        match self {
            FsError::InvalidName => "Use a single name, without / or \\.",
            FsError::Collision => "That name is already taken.",
            FsError::OutsideRoot => "That stays inside this library.",
            FsError::Nested => "Can't move a folder into itself.",
            FsError::Io => "Could not update the disk.",
        }
    }
}

/// What to do when the destination name is taken.
#[derive(Clone, Copy, Debug, PartialEq, Eq, Structural)]
pub enum Collision {
    Fail,
    KeepBoth,
    Replace,
}

/// A name the user may give a file or folder: once trimmed it is not empty,
/// not `.` or `..`, and holds no `/`, `\` or NUL.
pub open spec fn valid(name: Seq<char>) -> bool {
    let t = trim(name);
    &&& t.len() > 0
    &&& t != cur_part()
    &&& t != up_part()
    &&& !t.contains('/')
    &&& !t.contains('\\')
    &&& !t.contains('\0')
}

/// `path` is the root or lies below it.
pub open spec fn inside(path: Seq<Seq<char>>, root: Seq<Seq<char>>) -> bool {
    starts_with(path, root)
}

/// `path` may be renamed, moved, copied or trashed: it lies strictly below
/// the root.
pub open spec fn movable(path: Seq<Seq<char>>, root: Seq<Seq<char>>) -> bool {
    inside(path, root) && path != root
}

/// What a probe of the disk answers: the names it reports taken in the
/// folder it looks at, as `Path::exists` does for the path of that name.
pub open spec fn answers<F: Fn(&str) -> bool>(f: F) -> spec_fn(Seq<char>) -> bool {
    |x: Seq<char>| exists|s: &str| s@ == x && #[trigger] call_ensures(f, (s,), true)
}

/// A probe that may be asked about any name and answers alike for the same
/// name while one decision is made.
pub open spec fn steady<F: Fn(&str) -> bool>(f: F) -> bool {
    &&& forall|s: &str| #[trigger] call_requires(f, (s,))
    &&& forall|s: &str, t: &str, a: bool, b: bool|
        #![trigger call_ensures(f, (s,), a), call_ensures(f, (t,), b)]
        s@ == t@ && call_ensures(f, (s,), a) && call_ensures(f, (t,), b) ==> a == b
}

/// The path already exists: its name is taken in its folder.
pub open spec fn present(path: Seq<Seq<char>>, taken: spec_fn(Seq<char>) -> bool) -> bool {
    match file_name_of(path) {
        Some(n) => taken(n),
        None => false,
    }
}

pub open spec fn opt_view(o: Option<String>) -> Option<Seq<char>> {
    match o {
        Some(s) => Some(s@),
        None => None,
    }
}

/// Folder in which a sibling of `p` is named.
pub open spec fn base_dir(p: Seq<Seq<char>>) -> Seq<Seq<char>> {
    match parent_of(p) {
        Some(q) => q,
        None => p,
    }
}

/// Stem of the path's file name, or `item` without one.
pub open spec fn stem_part(p: Seq<Seq<char>>) -> Seq<char> {
    match file_name_of(p) {
        Some(n) => stem_of(n),
        None => "item"@,
    }
}

pub open spec fn with_ext(s: Seq<char>, ext: Option<Seq<char>>) -> Seq<char> {
    match ext {
        Some(e) => s + seq!['.'] + e,
        None => s,
    }
}

/// `{stem} {n}.{ext}`.
pub open spec fn numbered(stem: Seq<char>, ext: Option<Seq<char>>, n: nat) -> Seq<char> {
    with_ext(stem + seq![' '] + decimal(n), ext)
}

/// `{stem} copy.{ext}`, or `{stem} copy {n}.{ext}`.
pub open spec fn copy_named(stem: Seq<char>, ext: Option<Seq<char>>, n: Option<nat>) -> Seq<char> {
    match n {
        Some(k) => with_ext(stem + " copy "@ + decimal(k), ext),
        None => with_ext(stem + " copy"@, ext),
    }
}

/// The first `n` from `from` up to 9999 whose numbered name is free.
pub open spec fn first_free(taken: spec_fn(Seq<char>) -> bool, stem: Seq<char>, ext: Option<Seq<char>>, from: nat) -> Option<nat>
    decreases 10000 - from,
{
    if from >= 10000 {
        None
    } else if !taken(numbered(stem, ext, from)) {
        Some(from)
    } else {
        first_free(taken, stem, ext, from + 1)
    }
}

/// The first `n` from `from` up to 9999 whose numbered copy name is free.
pub open spec fn first_free_copy(
    taken: spec_fn(Seq<char>) -> bool,
    stem: Seq<char>,
    ext: Option<Seq<char>>,
    from: nat,
) -> Option<nat>
    decreases 10000 - from,
{
    if from >= 10000 {
        None
    } else if !taken(copy_named(stem, ext, Some(from))) {
        Some(from)
    } else {
        first_free_copy(taken, stem, ext, from + 1)
    }
}

/// Where "keep both" puts a second `p`: `{stem} 2.{ext}`, `{stem} 3.{ext}`, ...
/// beside it, the first free one; past 9999 the number is `fallback`.
pub open spec fn numbered_path(p: Seq<Seq<char>>, taken: spec_fn(Seq<char>) -> bool, fallback: u32) -> Seq<Seq<char>> {
    let n = match first_free(taken, stem_part(p), path_ext(p), 2) {
        Some(k) => k,
        None => fallback as nat,
    };
    base_dir(p).push(numbered(stem_part(p), path_ext(p), n))
}

/// Where a copy of `p` beside it goes: `{stem} copy.{ext}`, then
/// `{stem} copy 2.{ext}` and up, the first free one; when none is free,
/// the first.
pub open spec fn copy_path(p: Seq<Seq<char>>, taken: spec_fn(Seq<char>) -> bool) -> Seq<Seq<char>> {
    let stem = stem_part(p);
    let ext = path_ext(p);
    let name = if !taken(copy_named(stem, ext, None)) {
        copy_named(stem, ext, None)
    } else {
        match first_free_copy(taken, stem, ext, 2) {
            Some(k) => copy_named(stem, ext, Some(k)),
            None => copy_named(stem, ext, None),
        }
    };
    base_dir(p).push(name)
}

pub fn valid_name(name: &str) -> (r: bool)
    ensures
        r == valid(name@),
{
    let t = trim_str(name);
    let s = t.as_str();
    let n = s.unicode_len();
    if n == 0 {
        return false;
    }
    let dot = n == 1 && s.get_char(0) == '.';
    let dots = n == 2 && s.get_char(0) == '.' && s.get_char(1) == '.';
    proof {
        if dot {
            assert(t@ =~= cur_part());
        }
        if dots {
            assert(t@ =~= up_part());
        }
        if t@ == cur_part() {
            assert(t@[0] == '.');
        }
        if t@ == up_part() {
            assert(t@[0] == '.' && t@[1] == '.');
        }
    }
    if dot || dots {
        return false;
    }
    !has_char(s, '/') && !has_char(s, '\\') && !has_char(s, '\0')
}

/// A name the checks accept, trimmed, is a single normal path component:
/// never empty, `.`, `..`, nor anything with a separator.
pub proof fn law_valid_name_is_component(name: Seq<char>)
    requires
        valid(name),
    ensures
        is_normal(trim(name)),
{
}

pub fn under_root(path: &LibPath, root: &LibPath) -> (r: bool)
    ensures
        r == inside(path@, root@),
{
    path.same(root) || path.starts_with(root)
}

/// Refuses the root itself and anything outside it.
pub fn guarded(path: &LibPath, root: &LibPath) -> (r: Result<(), FsError>)
    ensures
        r is Ok <==> movable(path@, root@),
        r matches Err(e) ==> e == FsError::OutsideRoot,
{
    if !under_root(path, root) || path.same(root) {
        Err(FsError::OutsideRoot)
    } else {
        Ok(())
    }
}

/// Asks the probe whether the name `x` is taken.
fn probe_name<F: Fn(&str) -> bool>(taken: &F, x: &str) -> (r: bool)
    requires
        steady(*taken),
    ensures
        r == answers(*taken)(x@),
{
    let r = taken(x);
    proof {
        if !r && answers(*taken)(x@) {
            let t = choose|t: &str| t@ == x@ && call_ensures(*taken, (t,), true);
            assert(call_ensures(*taken, (x,), false));
        }
    }
    r
}

fn is_present<F: Fn(&str) -> bool>(path: &LibPath, taken: &F) -> (r: bool)
    requires
        steady(*taken),
    ensures
        r == present(path@, answers(*taken)),
{
    match path.file_name() {
        Some(n) => probe_name(taken, n.as_str()),
        None => false,
    }
}

fn stem_and_ext(path: &LibPath) -> (r: (String, Option<String>))
    ensures
        r.0@ == stem_part(path@),
        opt_view(r.1) == path_ext(path@),
{
    match path.file_name() {
        Some(n) => {
            let (stem, ext) = split_name(n.as_str());
            (stem, ext)
        },
        None => {
            proof {
                reveal_strlit("item");
            }
            (String::from_str("item"), None)
        },
    }
}

fn base_of(path: &LibPath) -> (r: LibPath)
    ensures
        r@ == base_dir(path@),
{
    match path.parent() {
        Some(q) => q,
        None => path.copied(),
    }
}

fn add_ext(s: &mut String, ext: &Option<String>)
    ensures
        final(s)@ == with_ext(old(s)@, opt_view(*ext)),
{
    match ext {
        Some(e) => {
            s.append(".");
            s.append(e.as_str());
            proof {
                reveal_strlit(".");
                assert("."@ =~= seq!['.']);
            }
        },
        None => {},
    }
}

fn numbered_name(stem: &str, ext: &Option<String>, n: u32) -> (r: String)
    ensures
        r@ == numbered(stem@, opt_view(*ext), n as nat),
{
    let mut s = String::from_str(stem);
    s.append(" ");
    s.append(decimal_string(n).as_str());
    proof {
        reveal_strlit(" ");
        assert(" "@ =~= seq![' ']);
    }
    add_ext(&mut s, ext);
    s
}

fn copy_name(stem: &str, ext: &Option<String>, n: Option<u32>) -> (r: String)
    ensures
        r@ == copy_named(
            stem@,
            opt_view(*ext),
            match n {
                Some(k) => Some(k as nat),
                None => None,
            },
        ),
{
    let mut s = String::from_str(stem);
    match n {
        Some(k) => {
            s.append(" copy ");
            s.append(decimal_string(k).as_str());
        },
        None => {
            s.append(" copy");
        },
    }
    add_ext(&mut s, ext);
    s
}

/// Where "keep both" puts a second `path`, asking the probe of its folder
/// about each numbered name in turn.
/// Past 9999 taken numbers the number is `fallback` (the process id).
pub fn unique_numbered<F: Fn(&str) -> bool>(path: &LibPath, taken: &F, fallback: u32) -> (r: LibPath)
    requires
        steady(*taken),
    ensures
        r@ == numbered_path(path@, answers(*taken), fallback),
{
    let base = base_of(path);
    let (stem, ext) = stem_and_ext(path);
    let mut n: u32 = 2;
    while n < 10000
        invariant
            2 <= n <= 10000,
            steady(*taken),
            base@ == base_dir(path@),
            stem@ == stem_part(path@),
            opt_view(ext) == path_ext(path@),
            first_free(answers(*taken), stem@, opt_view(ext), 2) == first_free(
                answers(*taken),
                stem@,
                opt_view(ext),
                n as nat,
            ),
        decreases 10000 - n,
    {
        let name = numbered_name(stem.as_str(), &ext, n);
        if !probe_name(taken, name.as_str()) {
            return base.join(name.as_str());
        }
        n = n + 1;
    }
    let name = numbered_name(stem.as_str(), &ext, fallback);
    base.join(name.as_str())
}

/// Where a copy of `path` beside it goes, asking the probe of its folder.
pub fn unique_copy_name<F: Fn(&str) -> bool>(path: &LibPath, taken: &F) -> (r: LibPath)
    requires
        steady(*taken),
    ensures
        r@ == copy_path(path@, answers(*taken)),
{
    let base = base_of(path);
    let (stem, ext) = stem_and_ext(path);
    let first = copy_name(stem.as_str(), &ext, None);
    if !probe_name(taken, first.as_str()) {
        return base.join(first.as_str());
    }
    let mut n: u32 = 2;
    while n < 10000
        invariant
            2 <= n <= 10000,
            steady(*taken),
            base@ == base_dir(path@),
            stem@ == stem_part(path@),
            opt_view(ext) == path_ext(path@),
            first@ == copy_named(stem@, opt_view(ext), None),
            answers(*taken)(first@),
            first_free_copy(answers(*taken), stem@, opt_view(ext), 2) == first_free_copy(
                answers(*taken),
                stem@,
                opt_view(ext),
                n as nat,
            ),
        decreases 10000 - n,
    {
        let name = copy_name(stem.as_str(), &ext, Some(n));
        if !probe_name(taken, name.as_str()) {
            return base.join(name.as_str());
        }
        n = n + 1;
    }
    base.join(first.as_str())
}

/// How an item reaches its destination.
#[derive(Clone, Copy, Debug, PartialEq, Eq, Structural)]
pub enum Transfer {
    /// The destination is the item itself: nothing to do.
    Keep,
    Move,
    Copy,
}

/// Where an operation lands, and what to do to get there. With `replace`,
/// whatever holds the destination goes to the Trash first.
#[derive(Debug, PartialEq, Eq)]
pub struct Placement {
    pub dest: LibPath,
    pub replace: bool,
    pub transfer: Transfer,
}

impl View for Placement {
    type V = (Seq<Seq<char>>, bool, Transfer);

    open spec fn view(&self) -> (Seq<Seq<char>>, bool, Transfer) {
        (self.dest@, self.replace, self.transfer)
    }
}

/// What the caller found on disk about a destination: whether it is the
/// very item being placed (`same`, as canonical paths compare), a probe of
/// its folder telling which names are taken there, and the number to use when every numbered name up to
/// 9999 is taken.
pub struct DestFacts<F> {
    pub same: bool,
    pub taken: F,
    pub pid: u32,
}

/// The destination once a collision is handled: `(path, replace)`.
pub open spec fn prepared(
    dest: Seq<Seq<char>>,
    collision: Collision,
    root: Seq<Seq<char>>,
    taken: spec_fn(Seq<char>) -> bool,
    pid: u32,
) -> Result<(Seq<Seq<char>>, bool), FsError> {
    if !present(dest, taken) {
        Ok((dest, false))
    } else {
        match collision {
            Collision::Fail => Err(FsError::Collision),
            Collision::KeepBoth => Ok((numbered_path(dest, taken, pid), false)),
            Collision::Replace => if movable(dest, root) {
                Ok((dest, true))
            } else {
                Err(FsError::OutsideRoot)
            },
        }
    }
}

/// The placement of `from` at `dest`: an item that already is its
/// destination stays (or, copied, gets a copy name beside it); otherwise
/// the collision rule decides.
pub open spec fn settled(
    from: Seq<Seq<char>>,
    dest: Seq<Seq<char>>,
    collision: Collision,
    root: Seq<Seq<char>>,
    copy: bool,
    same: bool,
    taken: spec_fn(Seq<char>) -> bool,
    pid: u32,
) -> Result<(Seq<Seq<char>>, bool, Transfer), FsError> {
    if same {
        if copy {
            Ok((copy_path(from, taken), false, Transfer::Copy))
        } else {
            Ok((from, false, Transfer::Keep))
        }
    } else {
        match prepared(dest, collision, root, taken, pid) {
            Ok(d) => Ok((d.0, d.1, if copy {
                Transfer::Copy
            } else {
                Transfer::Move
            })),
            Err(e) => Err(e),
        }
    }
}

pub open spec fn rename_dest(from: Seq<Seq<char>>, name: Seq<char>, root: Seq<Seq<char>>) -> Result<
    Seq<Seq<char>>,
    FsError,
> {
    if !valid(name) {
        Err(FsError::InvalidName)
    } else if !movable(from, root) {
        Err(FsError::OutsideRoot)
    } else {
        match parent_of(from) {
            None => Err(FsError::Io),
            Some(p) => if !inside(p, root) {
                Err(FsError::OutsideRoot)
            } else {
                Ok(p.push(trim(name)))
            },
        }
    }
}

pub open spec fn place_dest(from: Seq<Seq<char>>, dest_dir: Seq<Seq<char>>, root: Seq<Seq<char>>) -> Result<
    Seq<Seq<char>>,
    FsError,
> {
    if !inside(dest_dir, root) {
        Err(FsError::OutsideRoot)
    } else if starts_with(dest_dir, from) {
        Err(FsError::Nested)
    } else {
        match file_name_of(from) {
            None => Err(FsError::Io),
            Some(n) => Ok(dest_dir.push(n)),
        }
    }
}

pub open spec fn move_dest(from: Seq<Seq<char>>, dest_dir: Seq<Seq<char>>, root: Seq<Seq<char>>) -> Result<
    Seq<Seq<char>>,
    FsError,
> {
    if !movable(from, root) {
        Err(FsError::OutsideRoot)
    } else {
        place_dest(from, dest_dir, root)
    }
}

pub open spec fn renamed(
    from: Seq<Seq<char>>,
    name: Seq<char>,
    root: Seq<Seq<char>>,
    collision: Collision,
    same: bool,
    taken: spec_fn(Seq<char>) -> bool,
    pid: u32,
) -> Result<(Seq<Seq<char>>, bool, Transfer), FsError> {
    match rename_dest(from, name, root) {
        Err(e) => Err(e),
        Ok(d) => settled(from, d, collision, root, false, same, taken, pid),
    }
}

pub open spec fn moved(
    from: Seq<Seq<char>>,
    dest_dir: Seq<Seq<char>>,
    root: Seq<Seq<char>>,
    collision: Collision,
    same: bool,
    taken: spec_fn(Seq<char>) -> bool,
    pid: u32,
) -> Result<(Seq<Seq<char>>, bool, Transfer), FsError> {
    match move_dest(from, dest_dir, root) {
        Err(e) => Err(e),
        Ok(d) => settled(from, d, collision, root, false, same, taken, pid),
    }
}

pub open spec fn placed(
    from: Seq<Seq<char>>,
    dest_dir: Seq<Seq<char>>,
    root: Seq<Seq<char>>,
    collision: Collision,
    copy: bool,
    same: bool,
    taken: spec_fn(Seq<char>) -> bool,
    pid: u32,
) -> Result<(Seq<Seq<char>>, bool, Transfer), FsError> {
    match place_dest(from, dest_dir, root) {
        Err(e) => Err(e),
        Ok(d) => settled(from, d, collision, root, copy, same, taken, pid),
    }
}

pub open spec fn result_view(r: Result<Placement, FsError>) -> Result<(Seq<Seq<char>>, bool, Transfer), FsError> {
    match r {
        Ok(p) => Ok(p@),
        Err(e) => Err(e),
    }
}

pub open spec fn path_result(r: Result<LibPath, FsError>) -> Result<Seq<Seq<char>>, FsError> {
    match r {
        Ok(p) => Ok(p@),
        Err(e) => Err(e),
    }
}

/// The destination once a collision is handled, and whether what holds it
/// goes to the Trash first.
pub fn prepare_dest<F: Fn(&str) -> bool>(
    dest: &LibPath,
    collision: Collision,
    root: &LibPath,
    taken: &F,
    pid: u32,
) -> (r: Result<(LibPath, bool), FsError>)
    requires
        steady(*taken),
    ensures
        match (r, prepared(dest@, collision, root@, answers(*taken), pid)) {
            (Ok(a), Ok(b)) => a.0@ == b.0 && a.1 == b.1,
            (Err(a), Err(b)) => a == b,
            _ => false,
        },
{
    if !is_present(dest, taken) {
        return Ok((dest.copied(), false));
    }
    match collision {
        Collision::Fail => Err(FsError::Collision),
        Collision::KeepBoth => Ok((unique_numbered(dest, taken, pid), false)),
        Collision::Replace => {
            guarded(dest, root)?;
            Ok((dest.copied(), true))
        },
    }
}

fn settle<F: Fn(&str) -> bool>(
    from: &LibPath,
    dest: &LibPath,
    collision: Collision,
    root: &LibPath,
    copy: bool,
    facts: &DestFacts<F>,
) -> (r: Result<Placement, FsError>)
    requires
        steady(facts.taken),
    ensures
        result_view(r) == settled(
            from@,
            dest@,
            collision,
            root@,
            copy,
            facts.same,
            answers(facts.taken),
            facts.pid,
        ),
{
    if facts.same {
        if copy {
            return Ok(
                Placement {
                    dest: unique_copy_name(from, &facts.taken),
                    replace: false,
                    transfer: Transfer::Copy,
                },
            );
        } else {
            return Ok(Placement { dest: from.copied(), replace: false, transfer: Transfer::Keep });
        }
    }
    let (d, replace) = prepare_dest(dest, collision, root, &facts.taken, facts.pid)?;
    let transfer = if copy {
        Transfer::Copy
    } else {
        Transfer::Move
    };
    Ok(Placement { dest: d, replace, transfer })
}

/// Where a new folder named `name` inside `parent` goes, given which names
/// are taken in `parent`; the caller then creates it.
pub open spec fn created(
    parent: Seq<Seq<char>>,
    name: Seq<char>,
    root: Seq<Seq<char>>,
    taken: spec_fn(Seq<char>) -> bool,
) -> Result<Seq<Seq<char>>, FsError> {
    if !valid(name) {
        Err(FsError::InvalidName)
    } else if !inside(parent, root) {
        Err(FsError::OutsideRoot)
    } else if present(parent.push(trim(name)), taken) {
        Err(FsError::Collision)
    } else {
        Ok(parent.push(trim(name)))
    }
}

pub fn create_folder<F: Fn(&str) -> bool>(parent: &LibPath, name: &str, root: &LibPath, taken: &F) -> (r: Result<
    LibPath,
    FsError,
>)
    requires
        steady(*taken),
    ensures
        path_result(r) == created(parent@, name@, root@, answers(*taken)),
{
    if !valid_name(name) {
        return Err(FsError::InvalidName);
    }
    if !under_root(parent, root) {
        return Err(FsError::OutsideRoot);
    }
    let dest = parent.join(trim_str(name).as_str());
    if is_present(&dest, taken) {
        return Err(FsError::Collision);
    }
    Ok(dest)
}

/// Where renaming `from` to `new_name` points, before collisions.
pub fn rename_target(from: &LibPath, new_name: &str, root: &LibPath) -> (r: Result<LibPath, FsError>)
    ensures
        path_result(r) == rename_dest(from@, new_name@, root@),
{
    if !valid_name(new_name) {
        return Err(FsError::InvalidName);
    }
    guarded(from, root)?;
    let parent = match from.parent() {
        Some(p) => p,
        None => return Err(FsError::Io),
    };
    if !under_root(&parent, root) {
        return Err(FsError::OutsideRoot);
    }
    Ok(parent.join(trim_str(new_name).as_str()))
}

/// Renaming that refuses a taken name.
pub fn rename_path<F: Fn(&str) -> bool>(from: &LibPath, new_name: &str, root: &LibPath, facts: &DestFacts<F>) -> (r: Result<
    Placement,
    FsError,
>)
    requires
        steady(facts.taken),
    ensures
        result_view(r) == renamed(
            from@,
            new_name@,
            root@,
            Collision::Fail,
            facts.same,
            answers(facts.taken),
            facts.pid,
        ),
{
    rename_with(from, new_name, root, Collision::Fail, facts)
}

pub fn rename_with<F: Fn(&str) -> bool>(
    from: &LibPath,
    new_name: &str,
    root: &LibPath,
    collision: Collision,
    facts: &DestFacts<F>,
) -> (r: Result<Placement, FsError>)
    requires
        steady(facts.taken),
    ensures
        result_view(r) == renamed(
            from@,
            new_name@,
            root@,
            collision,
            facts.same,
            answers(facts.taken),
            facts.pid,
        ),
{
    let dest = rename_target(from, new_name, root)?;
    settle(from, &dest, collision, root, false, facts)
}

/// Where placing `from` into `dest_dir` points, before collisions.
pub fn place_target(from: &LibPath, dest_dir: &LibPath, root: &LibPath) -> (r: Result<
    LibPath,
    FsError,
>)
    ensures
        path_result(r) == place_dest(from@, dest_dir@, root@),
{
    if !under_root(dest_dir, root) {
        return Err(FsError::OutsideRoot);
    }
    if dest_dir.same(from) || dest_dir.starts_with(from) {
        return Err(FsError::Nested);
    }
    match from.file_name() {
        Some(n) => Ok(dest_dir.join(n.as_str())),
        None => Err(FsError::Io),
    }
}

/// Where moving `from` into `dest_dir` points, before collisions.
pub fn move_target(from: &LibPath, dest_dir: &LibPath, root: &LibPath) -> (r: Result<
    LibPath,
    FsError,
>)
    ensures
        path_result(r) == move_dest(from@, dest_dir@, root@),
{
    guarded(from, root)?;
    place_target(from, dest_dir, root)
}

pub fn move_into<F: Fn(&str) -> bool>(
    from: &LibPath,
    dest_dir: &LibPath,
    root: &LibPath,
    collision: Collision,
    facts: &DestFacts<F>,
) -> (r: Result<Placement, FsError>)
    requires
        steady(facts.taken),
    ensures
        result_view(r) == moved(
            from@,
            dest_dir@,
            root@,
            collision,
            facts.same,
            answers(facts.taken),
            facts.pid,
        ),
{
    let dest = move_target(from, dest_dir, root)?;
    settle(from, &dest, collision, root, false, facts)
}

pub fn copy_into<F: Fn(&str) -> bool>(
    from: &LibPath,
    dest_dir: &LibPath,
    root: &LibPath,
    collision: Collision,
    facts: &DestFacts<F>,
) -> (r: Result<Placement, FsError>)
    requires
        steady(facts.taken),
    ensures
        result_view(r) == (if !movable(from@, root@) {
            Err(FsError::OutsideRoot)
        } else {
            placed(from@, dest_dir@, root@, collision, true, facts.same, answers(facts.taken), facts.pid)
        }),
{
    guarded(from, root)?;
    place_into(from, dest_dir, root, collision, true, facts)
}

/// Copy or move `from` into `dest_dir`; `from` may live outside the library
/// (a drop from the file manager), and must exist.
pub fn import_into<F: Fn(&str) -> bool>(
    from: &LibPath,
    dest_dir: &LibPath,
    root: &LibPath,
    collision: Collision,
    copy: bool,
    from_exists: bool,
    facts: &DestFacts<F>,
) -> (r: Result<Placement, FsError>)
    requires
        steady(facts.taken),
    ensures
        result_view(r) == (if !from_exists {
            Err(FsError::Io)
        } else {
            placed(from@, dest_dir@, root@, collision, copy, facts.same, answers(facts.taken), facts.pid)
        }),
{
    if !from_exists {
        return Err(FsError::Io);
    }
    place_into(from, dest_dir, root, collision, copy, facts)
}

pub fn place_into<F: Fn(&str) -> bool>(
    from: &LibPath,
    dest_dir: &LibPath,
    root: &LibPath,
    collision: Collision,
    copy: bool,
    facts: &DestFacts<F>,
) -> (r: Result<Placement, FsError>)
    requires
        steady(facts.taken),
    ensures
        result_view(r) == placed(
            from@,
            dest_dir@,
            root@,
            collision,
            copy,
            facts.same,
            answers(facts.taken),
            facts.pid,
        ),
{
    let dest = place_target(from, dest_dir, root)?;
    settle(from, &dest, collision, root, copy, facts)
}

/// Where a duplicate of the file `from` goes, given which names are taken
/// in its folder; folders are not duplicated.
pub open spec fn duplicated(from: Seq<Seq<char>>, root: Seq<Seq<char>>, is_dir: bool, taken: spec_fn(Seq<char>) -> bool) -> Result<
    Seq<Seq<char>>,
    FsError,
> {
    if !movable(from, root) {
        Err(FsError::OutsideRoot)
    } else if is_dir {
        Err(FsError::Io)
    } else {
        Ok(copy_path(from, taken))
    }
}

pub fn duplicate<F: Fn(&str) -> bool>(from: &LibPath, root: &LibPath, is_dir: bool, taken: &F) -> (r: Result<
    LibPath,
    FsError,
>)
    requires
        steady(*taken),
    ensures
        path_result(r) == duplicated(from@, root@, is_dir, answers(*taken)),
{
    guarded(from, root)?;
    if is_dir {
        return Err(FsError::Io);
    }
    Ok(unique_copy_name(from, taken))
}

/// Whether `path` may go to the Trash: only what lies strictly inside the
/// library.
pub fn trash_path(path: &LibPath, root: &LibPath) -> (r: Result<(), FsError>)
    ensures
        r is Ok <==> movable(path@, root@),
        r matches Err(e) ==> e == FsError::OutsideRoot,
{
    guarded(path, root)
}

/// Where `path` goes inside a trash folder without a system Trash: a
/// numbered name beside its name there, asking the probe of the trash
/// folder.
pub fn trash_destination<F: Fn(&str) -> bool>(path: &LibPath, trash_dir: &LibPath, taken: &F, pid: u32) -> (r: Result<
    LibPath,
    FsError,
>)
    requires
        steady(*taken),
    ensures
        path_result(r) == match file_name_of(path@) {
            Some(n) => Ok(numbered_path(trash_dir@.push(n), answers(*taken), pid)),
            None => Err(FsError::Io),
        },
{
    match path.file_name() {
        Some(n) => Ok(unique_numbered(&trash_dir.join(n.as_str()), taken, pid)),
        None => Err(FsError::Io),
    }
}

/// Putting back an item from `from` to `to`, where it was: refused from
/// outside the library or onto another item.
pub open spec fn restored(
    from: Seq<Seq<char>>,
    to: Seq<Seq<char>>,
    root: Seq<Seq<char>>,
    to_exists: bool,
    same: bool,
) -> Result<Seq<Seq<char>>, FsError> {
    if !inside(from, root) {
        Err(FsError::OutsideRoot)
    } else if to_exists && !same {
        Err(FsError::Collision)
    } else {
        Ok(to)
    }
}

pub fn restore_path(from: &LibPath, to: &LibPath, root: &LibPath, to_exists: bool, same: bool) -> (r:
    Result<LibPath, FsError>)
    ensures
        path_result(r) == restored(from@, to@, root@, to_exists, same),
{
    if !under_root(from, root) {
        return Err(FsError::OutsideRoot);
    }
    if to_exists && !same {
        return Err(FsError::Collision);
    }
    Ok(to.copied())
}

proof fn lemma_first_free_is_free(taken: spec_fn(Seq<char>) -> bool, stem: Seq<char>, ext: Option<Seq<char>>, n: nat)
    ensures
        first_free(taken, stem, ext, n) matches Some(k) ==> !taken(numbered(stem, ext, k)),
    decreases 10000 - n,
{
    if n < 10000 && taken(numbered(stem, ext, n)) {
        lemma_first_free_is_free(taken, stem, ext, n + 1);
    }
}

proof fn lemma_first_free_copy_is_free(
    taken: spec_fn(Seq<char>) -> bool,
    stem: Seq<char>,
    ext: Option<Seq<char>>,
    n: nat,
)
    ensures
        first_free_copy(taken, stem, ext, n) matches Some(k) ==> !taken(copy_named(stem, ext, Some(k)),),
    decreases 10000 - n,
{
    if n < 10000 && taken(copy_named(stem, ext, Some(n))) {
        lemma_first_free_copy_is_free(taken, stem, ext, n + 1);
    }
}

proof fn lemma_decimal_digits(n: nat)
    ensures
        decimal(n).len() > 0,
        forall|i: int| 0 <= i < decimal(n).len() ==> '0' <= #[trigger] decimal(n)[i] <= '9',
    decreases n,
{
    if n >= 10 {
        lemma_decimal_digits(n / 10);
    }
}

/// Neither `a` nor `b` holds a `/`, so `a + b` holds none.
proof fn lemma_concat_no_slash(a: Seq<char>, b: Seq<char>)
    requires
        !a.contains('/'),
        !b.contains('/'),
    ensures
        !(a + b).contains('/'),
{
    assert forall|i: int| 0 <= i < (a + b).len() implies (a + b)[i] != '/' by {
        if i < a.len() {
            assert(a[i] == (a + b)[i]);
        } else {
            assert(b[i - a.len()] == (a + b)[i]);
        }
    }
}

/// A name with a space in it, without `/`, is a normal component.
proof fn lemma_spaced_is_normal(x: Seq<char>, i: int)
    requires
        0 <= i < x.len(),
        x[i] == ' ',
        !x.contains('/'),
    ensures
        is_normal(x),
{
    if x == cur_part() {
        assert(x[0] == '.');
    }
    if x == up_part() {
        assert(x[0] == '.' && x[1] == '.');
    }
}

proof fn lemma_with_ext_keeps(s: Seq<char>, ext: Option<Seq<char>>, i: int)
    requires
        0 <= i < s.len(),
        s[i] == ' ',
        !s.contains('/'),
        ext matches Some(e) ==> !e.contains('/'),
    ensures
        is_normal(with_ext(s, ext)),
{
    match ext {
        Some(e) => {
            lemma_concat_no_slash(seq!['.'], e);
            lemma_concat_no_slash(s, seq!['.'] + e);
            assert(s + seq!['.'] + e =~= s + (seq!['.'] + e));
            assert((s + seq!['.'] + e)[i] == ' ');
            lemma_spaced_is_normal(s + seq!['.'] + e, i);
        },
        None => {
            lemma_spaced_is_normal(s, i);
        },
    }
}

/// Keep-both and copy names are normal components.
proof fn lemma_names_are_normal(stem: Seq<char>, ext: Option<Seq<char>>, k: nat)
    requires
        !stem.contains('/'),
        ext matches Some(e) ==> !e.contains('/'),
    ensures
        is_normal(numbered(stem, ext, k)),
        is_normal(copy_named(stem, ext, Some(k))),
        is_normal(copy_named(stem, ext, None)),
{
    lemma_decimal_digits(k);
    let d = decimal(k);
    assert(!d.contains('/')) by {
        assert forall|i: int| 0 <= i < d.len() implies d[i] != '/' by {
            assert('0' <= d[i] <= '9');
        }
    }
    assert(!seq![' '].contains('/')) by {
        assert(seq![' '][0] == ' ');
    }
    let a = stem + seq![' '];
    lemma_concat_no_slash(stem, seq![' ']);
    lemma_concat_no_slash(a, d);
    assert((a + d)[stem.len() as int] == ' ');
    lemma_with_ext_keeps(a + d, ext, stem.len() as int);
    reveal_strlit(" copy ");
    reveal_strlit(" copy");
    let c1 = " copy "@;
    let c2 = " copy"@;
    assert(!c1.contains('/')) by {
        assert forall|i: int| 0 <= i < c1.len() implies c1[i] != '/' by {}
    }
    assert(!c2.contains('/')) by {
        assert forall|i: int| 0 <= i < c2.len() implies c2[i] != '/' by {}
    }
    lemma_concat_no_slash(stem, c1);
    lemma_concat_no_slash(stem + c1, d);
    assert((stem + c1 + d)[stem.len() as int] == ' ');
    lemma_with_ext_keeps(stem + c1 + d, ext, stem.len() as int);
    lemma_concat_no_slash(stem, c2);
    assert((stem + c2)[stem.len() as int] == ' ');
    lemma_with_ext_keeps(stem + c2, ext, stem.len() as int);
}

/// A path strictly below the root keeps its parent inside the root.
proof fn lemma_base_inside(p: Seq<Seq<char>>, root: Seq<Seq<char>>)
    requires
        movable(p, root),
    ensures
        inside(base_dir(p), root),
{
    assert(root.len() < p.len()) by {
        if root.len() == p.len() {
            assert(root =~= p);
        }
    }
    if parent_of(p) is Some {
        assert(root =~= p.drop_last().subrange(0, root.len() as int));
    }
}

/// One more name below a folder inside the root lies strictly inside it.
proof fn lemma_push_movable(dir: Seq<Seq<char>>, name: Seq<char>, root: Seq<Seq<char>>)
    requires
        inside(dir, root),
    ensures
        movable(dir.push(name), root),
{
    assert(root =~= dir.push(name).subrange(0, root.len() as int));
}

/// Keep-both and copy names stay in the folder the path is in.
proof fn lemma_siblings_movable(p: Seq<Seq<char>>, taken: spec_fn(Seq<char>) -> bool, pid: u32, root: Seq<Seq<char>>)
    requires
        movable(p, root),
    ensures
        movable(numbered_path(p, taken, pid), root),
        movable(copy_path(p, taken), root),
{
    lemma_base_inside(p, root);
    let stem = stem_part(p);
    let ext = path_ext(p);
    let n = match first_free(taken, stem, ext, 2) {
        Some(k) => k,
        None => pid as nat,
    };
    lemma_push_movable(base_dir(p), numbered(stem, ext, n), root);
    let cname = if !taken(copy_named(stem, ext, None)) {
        copy_named(stem, ext, None)
    } else {
        match first_free_copy(taken, stem, ext, 2) {
            Some(k) => copy_named(stem, ext, Some(k)),
            None => copy_named(stem, ext, None),
        }
    };
    lemma_push_movable(base_dir(p), cname, root);
}

proof fn lemma_no_slash_parts(n: Seq<char>)
    requires
        !n.contains('/'),
    ensures
        !stem_of(n).contains('/'),
        ext_of(n) matches Some(e) ==> !e.contains('/'),
{
    crate::path::lemma_last_dot_bounds(n);
    let st = stem_of(n);
    assert forall|i: int| 0 <= i < st.len() implies st[i] != '/' by {
        assert(st[i] == n[i]);
    }
    if let Some(e) = ext_of(n) {
        let k = crate::path::last_dot(n);
        assert forall|i: int| 0 <= i < e.len() implies e[i] != '/' by {
            assert(e[i] == n[k + 1 + i]);
        }
    }
}

proof fn lemma_parts_of_path(p: Seq<Seq<char>>)
    ensures
        !stem_part(p).contains('/'),
        path_ext(p) matches Some(e) ==> !e.contains('/'),
{
    match file_name_of(p) {
        Some(n) => lemma_no_slash_parts(n),
        None => {
            reveal_strlit("item");
            assert forall|i: int| 0 <= i < "item"@.len() implies "item"@[i] != '/' by {}
        },
    }
}

/// A rename writes only strictly inside the library.
pub proof fn law_rename_stays_inside(
    from: Seq<Seq<char>>,
    name: Seq<char>,
    root: Seq<Seq<char>>,
    collision: Collision,
    same: bool,
    taken: spec_fn(Seq<char>) -> bool,
    pid: u32,
)
    ensures
        renamed(from, name, root, collision, same, taken, pid) matches Ok(p) ==> movable(p.0, root),
{
    if let Ok(d) = rename_dest(from, name, root) {
        let parent = parent_of(from)->0;
        lemma_push_movable(parent, trim(name), root);
        lemma_siblings_movable(d, taken, pid, root);
    }
}

/// A move writes only strictly inside the library, and never puts a folder
/// inside itself.
pub proof fn law_move_stays_inside(
    from: Seq<Seq<char>>,
    dest_dir: Seq<Seq<char>>,
    root: Seq<Seq<char>>,
    collision: Collision,
    same: bool,
    taken: spec_fn(Seq<char>) -> bool,
    pid: u32,
)
    ensures
        moved(from, dest_dir, root, collision, same, taken, pid) matches Ok(p) ==> movable(p.0, root)
            && movable(from, root) && !starts_with(dest_dir, from),
{
    if let Ok(d) = move_dest(from, dest_dir, root) {
        lemma_push_movable(dest_dir, file_name_of(from)->0, root);
        lemma_siblings_movable(d, taken, pid, root);
    }
}

/// A copy of an item of the library writes only strictly inside it, and
/// never into the copied folder itself.
pub proof fn law_copy_stays_inside(
    from: Seq<Seq<char>>,
    dest_dir: Seq<Seq<char>>,
    root: Seq<Seq<char>>,
    collision: Collision,
    same: bool,
    taken: spec_fn(Seq<char>) -> bool,
    pid: u32,
)
    requires
        movable(from, root),
    ensures
        placed(from, dest_dir, root, collision, true, same, taken, pid) matches Ok(p) ==> movable(
            p.0,
            root,
        ) && !starts_with(dest_dir, from),
{
    if let Ok(d) = place_dest(from, dest_dir, root) {
        lemma_push_movable(dest_dir, file_name_of(from)->0, root);
        lemma_siblings_movable(d, taken, pid, root);
        lemma_siblings_movable(from, taken, pid, root);
    }
}

/// An import from anywhere lands strictly inside the library, unless the
/// item already is its destination.
pub proof fn law_import_lands_inside(
    from: Seq<Seq<char>>,
    dest_dir: Seq<Seq<char>>,
    root: Seq<Seq<char>>,
    collision: Collision,
    copy: bool,
    taken: spec_fn(Seq<char>) -> bool,
    pid: u32,
)
    ensures
        placed(from, dest_dir, root, collision, copy, false, taken, pid) matches Ok(p) ==> movable(
            p.0,
            root,
        ) && !starts_with(dest_dir, from),
{
    if let Ok(d) = place_dest(from, dest_dir, root) {
        lemma_push_movable(dest_dir, file_name_of(from)->0, root);
        lemma_siblings_movable(d, taken, pid, root);
    }
}

/// Without "replace", nothing already on disk is written over: the
/// destination name is not taken in its folder, as long as
/// some numbered name up to 9999 is free.
pub proof fn law_no_overwrite_without_replace(
    from: Seq<Seq<char>>,
    dest: Seq<Seq<char>>,
    collision: Collision,
    root: Seq<Seq<char>>,
    copy: bool,
    same: bool,
    taken: spec_fn(Seq<char>) -> bool,
    pid: u32,
)
    requires
        first_free(taken, stem_part(dest), path_ext(dest), 2) is Some,
        taken(copy_named(stem_part(from), path_ext(from), None)) ==> first_free_copy(
            taken,
            stem_part(from),
            path_ext(from),
            2,
        ) is Some,
    ensures
        settled(from, dest, collision, root, copy, same, taken, pid) matches Ok(p) ==> (!p.1 && p.2
            != Transfer::Keep ==> !present(p.0, taken)),
{
    lemma_parts_of_path(dest);
    lemma_parts_of_path(from);
    let k = first_free(taken, stem_part(dest), path_ext(dest), 2)->0;
    lemma_first_free_is_free(taken, stem_part(dest), path_ext(dest), 2);
    lemma_names_are_normal(stem_part(dest), path_ext(dest), k);
    assert(file_name_of(numbered_path(dest, taken, pid)) == Some(
        numbered(stem_part(dest), path_ext(dest), k),
    ));
    let stem = stem_part(from);
    let ext = path_ext(from);
    lemma_first_free_copy_is_free(taken, stem, ext, 2);
    if let Some(j) = first_free_copy(taken, stem, ext, 2) {
        lemma_names_are_normal(stem, ext, j);
    }
    lemma_names_are_normal(stem, ext, 0);
    if taken(copy_named(stem, ext, None)) {
        let j = first_free_copy(taken, stem, ext, 2)->0;
        assert(file_name_of(copy_path(from, taken)) == Some(copy_named(stem, ext, Some(j))));
    } else {
        assert(file_name_of(copy_path(from, taken)) == Some(copy_named(stem, ext, None)));
    }
}

/// A duplicate lands beside the item it copies, under a name nothing there holds,
/// while a free copy name is left.
pub proof fn law_duplicate_never_overwrites(
    from: Seq<Seq<char>>,
    root: Seq<Seq<char>>,
    is_dir: bool,
    taken: spec_fn(Seq<char>) -> bool,
)
    requires
        taken(copy_named(stem_part(from), path_ext(from), None)) ==> first_free_copy(
            taken,
            stem_part(from),
            path_ext(from),
            2,
        ) is Some,
    ensures
        duplicated(from, root, is_dir, taken) matches Ok(d) ==> !present(d, taken) && parent_of(d)
            == Some(base_dir(from)),
{
    lemma_parts_of_path(from);
    let stem = stem_part(from);
    let ext = path_ext(from);
    lemma_first_free_copy_is_free(taken, stem, ext, 2);
    lemma_names_are_normal(stem, ext, 0);
    if let Some(j) = first_free_copy(taken, stem, ext, 2) {
        lemma_names_are_normal(stem, ext, j);
    }
    let d = copy_path(from, taken);
    if taken(copy_named(stem, ext, None)) {
        let j = first_free_copy(taken, stem, ext, 2)->0;
        assert(d.last() == copy_named(stem, ext, Some(j)));
        assert(file_name_of(d) == Some(copy_named(stem, ext, Some(j))));
    } else {
        assert(d.last() == copy_named(stem, ext, None));
        assert(file_name_of(d) == Some(copy_named(stem, ext, None)));
    }
    assert(d.drop_last() =~= base_dir(from));
    assert(d.last() != root_part()) by {
        assert(is_normal(d.last()));
        if d.last() == root_part() {
            assert(d.last()[0] == '/');
            assert(d.last().contains('/'));
        }
    }
}

/// A move that wrote nothing over is put back by a restore from where it
/// landed to where it was.
pub proof fn law_restore_undoes_move(
    from: Seq<Seq<char>>,
    dest_dir: Seq<Seq<char>>,
    root: Seq<Seq<char>>,
    collision: Collision,
    same: bool,
    taken: spec_fn(Seq<char>) -> bool,
    pid: u32,
)
    ensures
        moved(from, dest_dir, root, collision, same, taken, pid) matches Ok(p) ==> (p.2
            == Transfer::Move ==> restored(p.0, from, root, false, false) == Ok::<Seq<Seq<char>>, FsError>(from)),
{
    law_move_stays_inside(from, dest_dir, root, collision, same, taken, pid);
}

/// A rename that wrote nothing over is put back by a restore from the new
/// name to the old one.
pub proof fn law_restore_undoes_rename(
    from: Seq<Seq<char>>,
    name: Seq<char>,
    root: Seq<Seq<char>>,
    collision: Collision,
    same: bool,
    taken: spec_fn(Seq<char>) -> bool,
    pid: u32,
)
    ensures
        renamed(from, name, root, collision, same, taken, pid) matches Ok(p) ==> (p.2
            == Transfer::Move ==> restored(p.0, from, root, false, false) == Ok::<Seq<Seq<char>>, FsError>(from)),
{
    law_rename_stays_inside(from, name, root, collision, same, taken, pid);
}

/// "Replace" keeps the destination: when its name is taken and it lies
/// strictly inside the library, the item goes to exactly that path and what
/// held it goes to the Trash first.
pub proof fn law_replace_takes_the_place(
    dest: Seq<Seq<char>>,
    root: Seq<Seq<char>>,
    taken: spec_fn(Seq<char>) -> bool,
    pid: u32,
)
    requires
        file_name_of(dest) matches Some(n) && taken(n),
        movable(dest, root),
    ensures
        prepared(dest, Collision::Replace, root, taken, pid) == Ok::<(Seq<Seq<char>>, bool), FsError>(
            (dest, true),
        ),
{
}

/// Moving into a folder that holds the item's name with "replace" lands
/// under the item's own name there, replacing what was there; a free name
/// is taken as it is, whatever the collision rule.
pub proof fn law_move_replace_keeps_name(
    from: Seq<Seq<char>>,
    dest_dir: Seq<Seq<char>>,
    root: Seq<Seq<char>>,
    collision: Collision,
    taken: spec_fn(Seq<char>) -> bool,
    pid: u32,
)
    requires
        movable(from, root),
        inside(dest_dir, root),
        !starts_with(dest_dir, from),
        file_name_of(from) is Some,
    ensures
        taken(file_name_of(from)->0) ==> moved(from, dest_dir, root, Collision::Replace, false, taken, pid)
            == Ok::<(Seq<Seq<char>>, bool, Transfer), FsError>(
            (dest_dir.push(file_name_of(from)->0), true, Transfer::Move),
        ),
        !taken(file_name_of(from)->0) ==> moved(from, dest_dir, root, collision, false, taken, pid)
            == Ok::<(Seq<Seq<char>>, bool, Transfer), FsError>(
            (dest_dir.push(file_name_of(from)->0), false, Transfer::Move),
        ),
{
    let n = file_name_of(from)->0;
    let d = dest_dir.push(n);
    lemma_push_movable(dest_dir, n, root);
    assert(d.last() == n);
    assert(d.drop_last() =~= dest_dir);
    assert(file_name_of(d) == Some(n));
}

/// A new folder gets exactly the trimmed name, strictly inside the library,
/// where nothing of that name was.
pub proof fn law_created_folder(
    parent: Seq<Seq<char>>,
    name: Seq<char>,
    root: Seq<Seq<char>>,
    taken: spec_fn(Seq<char>) -> bool,
)
    ensures
        created(parent, name, root, taken) matches Ok(d) ==> {
            &&& d == parent.push(trim(name))
            &&& file_name_of(d) == Some(trim(name))
            &&& movable(d, root)
            &&& !taken(trim(name))
        },
{
    if valid(name) && inside(parent, root) {
        lemma_push_movable(parent, trim(name), root);
    }
}

} // verus!
