//! Listings built from what a directory holds: the browse view (subfolders
//! first, then the media of this folder) and the flat view (every media file
//! below the library, named by its path from the library root).

use vstd::prelude::*;
use vstd::string::*;

use crate::media::ignore::{ignored, is_ignored};
use crate::media::types::{hidden, is_hidden, kind_of, media_kind, Entry, FolderItem, MediaItem};
use crate::path::{file_name_of, render, texts, LibPath};
use crate::sort::{is_permutation, order, sort_entries, stably_sorted, SortKey};

verus! {

/// One item a directory holds, with the facts the caller read about it.
pub struct RawEntry {
    pub path: LibPath,
    pub is_dir: bool,
    pub is_file: bool,
    pub modified: u64,
    pub size: u64,
    /// For a folder, how many media files it holds.
    pub media_count: usize,
}

/// A folder name the listing skips.
pub open spec fn ignored_dir(p: Seq<Seq<char>>, ignore: Seq<String>) -> bool {
    match file_name_of(p) {
        Some(n) => ignored(n, ignore),
        None => false,
    }
}

/// Browse view keeps visible subfolders that are not ignored, and visible
/// media files.
pub open spec fn browse_keep(ignore: Seq<String>) -> spec_fn(RawEntry) -> bool {
    |r: RawEntry|
        !hidden(r.path@) && ((r.is_dir && !ignored_dir(r.path@, ignore)) || (!r.is_dir && r.is_file
            && kind_of(r.path@) is Some))
}

/// The file name of `p`, or `fallback` without one.
pub open spec fn name_or(p: Seq<Seq<char>>, fallback: Seq<char>) -> Seq<char> {
    match file_name_of(p) {
        Some(n) => n,
        None => fallback,
    }
}

/// `e` is the browse entry for `r`.
pub open spec fn browse_entry(r: RawEntry, e: Entry) -> bool {
    if r.is_dir {
        e matches Entry::Folder(f) && f.path@ == r.path@ && f.name@ == name_or(r.path@, "folder"@)
            && f.media_count == r.media_count && f.modified == r.modified
    } else {
        e matches Entry::Media(m) && m.path@ == r.path@ && m.name@ == name_or(r.path@, "untitled"@)
            && Some(m.kind) == kind_of(r.path@) && m.modified == r.modified && m.size == r.size
    }
}

/// `out` holds, in order, the entries for the raw items `keep`.
pub open spec fn entries_for(
    keep: Seq<RawEntry>,
    out: Seq<Entry>,
    rel: spec_fn(RawEntry, Entry) -> bool,
) -> bool {
    &&& out.len() == keep.len()
    &&& forall|i: int| 0 <= i < out.len() ==> #[trigger] rel(keep[i], out[i])
}

fn name_or_default(path: &LibPath, fallback: &str) -> (r: String)
    ensures
        r@ == name_or(path@, fallback@),
{
    match path.file_name() {
        Some(n) => n,
        None => String::from_str(fallback),
    }
}

fn ignored_folder(path: &LibPath, ignore: &[String]) -> (r: bool)
    ensures
        r == ignored_dir(path@, ignore@),
{
    match path.file_name() {
        Some(n) => is_ignored(n.as_str(), ignore),
        None => false,
    }
}

/// Whether a walk of the library goes into the directory `path`: not into
/// dot folders nor ignored ones.
pub fn should_descend(path: &LibPath, ignore: &[String]) -> (r: bool)
    ensures
        r == (!hidden(path@) && !ignored_dir(path@, ignore@)),
{
    !is_hidden(path) && !ignored_folder(path, ignore)
}

/// How many of `children` are visible media files.
pub fn count_media(children: &[LibPath]) -> (r: usize)
    ensures
        r == children@.filter(|p: LibPath| !hidden(p@) && kind_of(p@) is Some).len(),
{
    let ghost pred = |p: LibPath| !hidden(p@) && kind_of(p@) is Some;
    let mut n: usize = 0;
    assert(pred == (|p: LibPath| !hidden(p@) && kind_of(p@) is Some));
    let mut i: usize = 0;
    assert(children@.take(0).filter(pred) =~= Seq::<LibPath>::empty()) by {
        reveal(Seq::filter);
    }
    while i < children.len()
        invariant
            i <= children@.len(),
            n == children@.take(i as int).filter(pred).len(),
            pred == (|p: LibPath| !hidden(p@) && kind_of(p@) is Some),
            n <= i,
        decreases children@.len() - i,
    {
        proof {
            children@.take(i as int).lemma_filter_push(children@[i as int], pred);
            assert(children@.take(i + 1) =~= children@.take(i as int).push(children@[i as int]));
        }
        if !is_hidden(&children[i]) && media_kind(&children[i]).is_some() {
            n = n + 1;
        }
        i = i + 1;
    }
    assert(children@.take(children@.len() as int) =~= children@);
    n
}

/// No entry of a browse listing is a dot file or dot folder: the file name
/// of each entry's path does not start with `.`.
pub proof fn law_browse_hides_dot_files(raw: Seq<RawEntry>, ignore: Seq<String>, out: Seq<Entry>)
    requires
        exists|c: Seq<Entry>|
            entries_for(raw.filter(browse_keep(ignore)), c, |r: RawEntry, e: Entry| browse_entry(r, e))
                && stably_sorted(out, c, SortKey::Name, false),
    ensures
        forall|i: int| 0 <= i < out.len() ==> match file_name_of((#[trigger] out[i]).spec_path()) {
            Some(n) => !(n.len() > 0 && n[0] == '.'),
            None => true,
        },
{
    let keep = browse_keep(ignore);
    let kept = raw.filter(keep);
    let c = choose|c: Seq<Entry>|
        entries_for(kept, c, |r: RawEntry, e: Entry| browse_entry(r, e)) && stably_sorted(
            out,
            c,
            SortKey::Name,
            false,
        );
    let p = choose|p: Seq<int>|
        {
            &&& is_permutation(p, c.len())
            &&& out.len() == c.len()
            &&& forall|i: int| 0 <= i < out.len() ==> #[trigger] out[i] == c[p[i]]
            &&& forall|i: int, j: int|
                0 <= i < j < out.len() ==> order(#[trigger] out[i], #[trigger] out[j], SortKey::Name, false) <= 0
            &&& forall|i: int, j: int|
                0 <= i < j < out.len() && order(#[trigger] out[i], #[trigger] out[j], SortKey::Name, false) == 0
                    ==> p[i] < p[j]
        };
    assert forall|i: int| 0 <= i < out.len() implies match file_name_of((#[trigger] out[i]).spec_path()) {
        Some(n) => !(n.len() > 0 && n[0] == '.'),
        None => true,
    } by {
        let k = p[i];
        assert(0 <= k < c.len());
        assert(out[i] == c[k]);
        assert((|r: RawEntry, e: Entry| browse_entry(r, e))(kept[k], c[k]));
        raw.lemma_filter_pred(keep, k);
        assert(keep(kept[k]));
        assert(!hidden(kept[k].path@));
        assert(out[i].spec_path() == kept[k].path@);
    }
}

/// The browse view of a directory: visible subfolders that are not ignored,
/// then the media files it holds, each group by name without regard to case.
pub fn scan_browse(raw: &Vec<RawEntry>, ignore: &[String]) -> (r: Vec<Entry>)
    ensures
        exists|c: Seq<Entry>|
            entries_for(raw@.filter(browse_keep(ignore@)), c, |r: RawEntry, e: Entry| browse_entry(r, e))
                && stably_sorted(r@, c, SortKey::Name, false),
        forall|i: int| 0 <= i < r@.len() ==> match file_name_of((#[trigger] r@[i]).spec_path()) {
            Some(n) => !(n.len() > 0 && n[0] == '.'),
            None => true,
        },
{
    let ghost keep = browse_keep(ignore@);
    let ghost rel = |r: RawEntry, e: Entry| browse_entry(r, e);
    let mut out: Vec<Entry> = Vec::new();
    let mut i: usize = 0;
    assert(raw@.take(0).filter(keep) =~= Seq::<RawEntry>::empty()) by {
        reveal(Seq::filter);
    }
    while i < raw.len()
        invariant
            i <= raw@.len(),
            keep == browse_keep(ignore@),
            rel == (|r: RawEntry, e: Entry| browse_entry(r, e)),
            entries_for(raw@.take(i as int).filter(keep), out@, rel),
        decreases raw@.len() - i,
    {
        let item = &raw[i];
        proof {
            raw@.take(i as int).lemma_filter_push(raw@[i as int], keep);
            assert(raw@.take(i + 1) =~= raw@.take(i as int).push(raw@[i as int]));
        }
        let ghost before = out@;
        if !is_hidden(&item.path) {
            if item.is_dir {
                if !ignored_folder(&item.path, ignore) {
                    proof {
                        reveal_strlit("folder");
                    }
                    out.push(
                        Entry::Folder(
                            FolderItem {
                                path: item.path.copied(),
                                name: name_or_default(&item.path, "folder"),
                                media_count: item.media_count,
                                modified: item.modified,
                            },
                        ),
                    );
                    assert(rel(raw@[i as int], out@[before.len() as int]));
                }
            } else if item.is_file {
                match media_kind(&item.path) {
                    Some(kind) => {
                        out.push(
                            Entry::Media(
                                MediaItem {
                                    path: item.path.copied(),
                                    name: name_or_default(&item.path, "untitled"),
                                    kind,
                                    modified: item.modified,
                                    size: item.size,
                                },
                            ),
                        );
                        assert(rel(raw@[i as int], out@[before.len() as int]));
                    },
                    None => {},
                }
            }
        }
        proof {
            let k = raw@.take(i + 1).filter(keep);
            assert forall|j: int| 0 <= j < out@.len() implies #[trigger] rel(k[j], out@[j]) by {
                if j < before.len() {
                    assert(out@[j] == before[j]);
                }
            }
        }
        i = i + 1;
    }
    assert(raw@.take(raw@.len() as int) =~= raw@);
    let ghost c = out@;
    sort_entries(&mut out, SortKey::Name, false);
    proof {
        law_browse_hides_dot_files(raw@, ignore@, out@);
    }
    out
}

/// Flat view keeps visible media files.
pub open spec fn flat_keep() -> spec_fn(RawEntry) -> bool {
    |r: RawEntry| !hidden(r.path@) && !r.is_dir && r.is_file && kind_of(r.path@) is Some
}

/// `p` below `root`, as text with `/` between components; `p` whole when it
/// is not below `root`. Backslashes read as `/` too.
pub open spec fn relative_name(p: Seq<Seq<char>>, root: Seq<Seq<char>>) -> Seq<char> {
    let rel = if root.is_prefix_of(p) {
        render(p.subrange(root.len() as int, p.len() as int))
    } else {
        render(p)
    };
    rel.map_values(|c: char| if c == '\\' { '/' } else { c })
}

/// `e` is the flat entry for `r` below `root`.
pub open spec fn flat_entry(root: Seq<Seq<char>>, r: RawEntry, e: Entry) -> bool {
    e matches Entry::Media(m) && m.path@ == r.path@ && m.name@ == relative_name(r.path@, root)
        && Some(m.kind) == kind_of(r.path@) && m.modified == r.modified && m.size == r.size
}

fn backslashes_as_slashes(s: &str) -> (r: String)
    ensures
        r@ == s@.map_values(|c: char| if c == '\\' { '/' } else { c }),
{
    let ghost f = |c: char| if c == '\\' { '/' } else { c };
    let n = s.unicode_len();
    let mut out = String::new();
    let mut i: usize = 0;
    while i < n
        invariant
            n == s@.len(),
            i <= n,
            f == (|c: char| if c == '\\' { '/' } else { c }),
            out@ == s@.subrange(0, i as int).map_values(f),
        decreases n - i,
    {
        if s.get_char(i) == '\\' {
            out.append("/");
            proof {
                reveal_strlit("/");
            }
        } else {
            out.append(s.substring_char(i, i + 1));
        }
        assert(out@ =~= s@.subrange(0, i + 1).map_values(f));
        i = i + 1;
    }
    assert(s@.subrange(0, n as int) =~= s@);
    out
}

fn relative_text(path: &LibPath, root: &LibPath) -> (r: String)
    ensures
        r@ == relative_name(path@, root@),
{
    let text = if path.starts_with(root) {
        let mut rest: Vec<String> = Vec::new();
        let mut i: usize = root.len();
        while i < path.len()
            invariant
                root@.len() <= i <= path@.len(),
                texts(rest@) == path@.subrange(root@.len() as int, i as int),
            decreases path@.len() - i,
        {
            assert(path@[i as int] == path.parts@[i as int]@);
            let ghost before = rest@;
            let part = path.parts[i].clone();
            rest.push(part);
            assert(rest@ == before.push(part));
            assert(texts(rest@) =~= texts(before).push(part@));
            assert(texts(rest@) =~= path@.subrange(root@.len() as int, i + 1));
            i = i + 1;
        }
        LibPath::from_parts(rest).to_text()
    } else {
        path.to_text()
    };
    backslashes_as_slashes(text.as_str())
}

/// The flat view: every visible media file the walk found, named by its path
/// from the library root, by name without regard to case.
/// The flat listing holds only media files, and no dot file: each entry is
/// media and the file name of its path does not start with `.`.
pub proof fn law_flat_hides_dot_files(root: Seq<Seq<char>>, files: Seq<RawEntry>, out: Seq<Entry>)
    requires
        exists|c: Seq<Entry>|
            entries_for(files.filter(flat_keep()), c, |r: RawEntry, e: Entry| flat_entry(root, r, e))
                && stably_sorted(out, c, SortKey::Name, false),
    ensures
        forall|i: int| 0 <= i < out.len() ==> (#[trigger] out[i]) is Media && match file_name_of(
            out[i].spec_path(),
        ) {
            Some(n) => !(n.len() > 0 && n[0] == '.'),
            None => true,
        },
{
    let keep = flat_keep();
    let kept = files.filter(keep);
    let c = choose|c: Seq<Entry>|
        entries_for(kept, c, |r: RawEntry, e: Entry| flat_entry(root, r, e)) && stably_sorted(
            out,
            c,
            SortKey::Name,
            false,
        );
    let p = choose|p: Seq<int>|
        {
            &&& is_permutation(p, c.len())
            &&& out.len() == c.len()
            &&& forall|i: int| 0 <= i < out.len() ==> #[trigger] out[i] == c[p[i]]
            &&& forall|i: int, j: int|
                0 <= i < j < out.len() ==> order(#[trigger] out[i], #[trigger] out[j], SortKey::Name, false) <= 0
            &&& forall|i: int, j: int|
                0 <= i < j < out.len() && order(#[trigger] out[i], #[trigger] out[j], SortKey::Name, false) == 0
                    ==> p[i] < p[j]
        };
    assert forall|i: int| 0 <= i < out.len() implies (#[trigger] out[i]) is Media && match file_name_of(
        out[i].spec_path(),
    ) {
        Some(n) => !(n.len() > 0 && n[0] == '.'),
        None => true,
    } by {
        let k = p[i];
        assert(out[i] == c[k]);
        assert((|r: RawEntry, e: Entry| flat_entry(root, r, e))(kept[k], c[k]));
        files.lemma_filter_pred(keep, k);
        assert(keep(kept[k]));
        assert(out[i].spec_path() == kept[k].path@);
    }
}

pub fn scan_folder_recursive(root: &LibPath, files: &Vec<RawEntry>) -> (r: Vec<Entry>)
    ensures
        exists|c: Seq<Entry>|
            entries_for(files@.filter(flat_keep()), c, |r: RawEntry, e: Entry| flat_entry(root@, r, e))
                && stably_sorted(r@, c, SortKey::Name, false),
{
    let ghost keep = flat_keep();
    let ghost rel = |r: RawEntry, e: Entry| flat_entry(root@, r, e);
    let mut out: Vec<Entry> = Vec::new();
    let mut i: usize = 0;
    assert(files@.take(0).filter(keep) =~= Seq::<RawEntry>::empty()) by {
        reveal(Seq::filter);
    }
    while i < files.len()
        invariant
            i <= files@.len(),
            keep == flat_keep(),
            rel == (|r: RawEntry, e: Entry| flat_entry(root@, r, e)),
            entries_for(files@.take(i as int).filter(keep), out@, rel),
        decreases files@.len() - i,
    {
        let item = &files[i];
        proof {
            files@.take(i as int).lemma_filter_push(files@[i as int], keep);
            assert(files@.take(i + 1) =~= files@.take(i as int).push(files@[i as int]));
        }
        let ghost before = out@;
        if !is_hidden(&item.path) && !item.is_dir && item.is_file {
            match media_kind(&item.path) {
                Some(kind) => {
                    out.push(
                        Entry::Media(
                            MediaItem {
                                path: item.path.copied(),
                                name: relative_text(&item.path, root),
                                kind,
                                modified: item.modified,
                                size: item.size,
                            },
                        ),
                    );
                    assert(rel(files@[i as int], out@[before.len() as int]));
                },
                None => {},
            }
        }
        proof {
            let k = files@.take(i + 1).filter(keep);
            assert forall|j: int| 0 <= j < out@.len() implies #[trigger] rel(k[j], out@[j]) by {
                if j < before.len() {
                    assert(out@[j] == before[j]);
                }
            }
        }
        i = i + 1;
    }
    assert(files@.take(files@.len() as int) =~= files@);
    sort_entries(&mut out, SortKey::Name, false);
    out
}

} // verus!
