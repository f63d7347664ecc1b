//! The header and footer of the grid: breadcrumbs, search hits, thumbnail
//! progress, the status line, and where focus lands after items leave.

use vstd::prelude::*;
use vstd::string::*;

use crate::gallery::control::paths_of;
use crate::gallery::nav::{entry_visible, lemma_shown_members, shown, visible, Filter};
use crate::media::scan::name_or;
use crate::media::types::Entry;
use crate::path::LibPath;
use crate::sort::{chars_of, lowercase, to_lowercase};
use crate::text::{decimal, decimal_usize};

verus! {

/// One breadcrumb: its label, and the folder it opens (none for the
/// current folder).
pub struct Crumb {
    pub label: String,
    pub target: Option<LibPath>,
}

pub open spec fn target_view(t: Option<LibPath>) -> Option<Seq<Seq<char>>> {
    match t {
        Some(p) => Some(p@),
        None => None,
    }
}

/// The breadcrumbs from the library root down to `folder`: the root's name
/// (or `library`), then each folder below it; every crumb but the current
/// folder opens its folder. A folder outside the root shows the root alone.
pub open spec fn crumbs_ok(root: Seq<Seq<char>>, folder: Seq<Seq<char>>, r: Seq<Crumb>) -> bool {
    let below = root.is_prefix_of(folder);
    let n = if below {
        folder.len() - root.len()
    } else {
        0
    };
    &&& r.len() == 1 + n
    &&& r[0].label@ == name_or(root, "library"@)
    &&& target_view(r[0].target) == if folder == root {
        None
    } else {
        Some(root)
    }
    &&& forall|k: int|
        1 <= k < r.len() ==> {
            &&& (#[trigger] r[k]).label@ == folder[root.len() + k - 1]
            &&& target_view(r[k].target) == if root.len() + k == folder.len() {
                None
            } else {
                Some(folder.subrange(0, root.len() + k))
            }
        }
}

pub fn breadcrumb_parts(root: &LibPath, folder: &LibPath) -> (r: Vec<Crumb>)
    ensures
        crumbs_ok(root@, folder@, r@),
{
    proof {
        reveal_strlit("library");
    }
    let label = match root.file_name() {
        Some(n) => n,
        None => String::from_str("library"),
    };
    let first = Crumb {
        label,
        target: if folder.same(root) {
            None
        } else {
            Some(root.copied())
        },
    };
    let mut out: Vec<Crumb> = Vec::new();
    out.push(first);
    if !folder.starts_with(root) {
        return out;
    }
    let mut acc = root.copied();
    let mut i: usize = root.len();
    while i < folder.len()
        invariant
            root@.is_prefix_of(folder@),
            root@.len() <= i <= folder@.len(),
            acc@ == folder@.subrange(0, i as int),
            out@.len() == 1 + i - root@.len(),
            out@[0].label@ == name_or(root@, "library"@),
            target_view(out@[0].target) == if folder@ == root@ {
                None
            } else {
                Some(root@)
            },
            forall|k: int|
                1 <= k < out@.len() ==> {
                    &&& (#[trigger] out@[k]).label@ == folder@[root@.len() + k - 1]
                    &&& target_view(out@[k].target) == if root@.len() + k == folder@.len() {
                        None
                    } else {
                        Some(folder@.subrange(0, root@.len() + k))
                    }
                },
        decreases folder@.len() - i,
    {
        assert(folder@[i as int] == folder.parts@[i as int]@);
        let part = folder.parts[i].clone();
        acc = acc.join(part.as_str());
        assert(acc@ =~= folder@.subrange(0, i + 1));
        let current = acc.same(folder);
        proof {
            if i + 1 < folder@.len() {
                assert(acc@.len() != folder@.len());
            } else {
                assert(acc@ =~= folder@);
            }
        }
        let target = if current {
            None
        } else {
            Some(acc.copied())
        };
        out.push(Crumb { label: part, target });
        i = i + 1;
    }
    out
}

/// `needle` occurs in `hay` at some position.
pub open spec fn occurs(hay: Seq<char>, needle: Seq<char>) -> bool {
    exists|i: int| 0 <= i && i + needle.len() <= hay.len() && #[trigger] hay.subrange(i, i + needle.len()) == needle
}

fn occurs_in(hay: &Vec<char>, needle: &Vec<char>) -> (r: bool)
    ensures
        r == occurs(hay@, needle@),
{
    let h = hay.len();
    let n = needle.len();
    if n > h {
        return false;
    }
    let mut i: usize = 0;
    while i <= h - n
        invariant
            n <= h,
            h == hay@.len(),
            n == needle@.len(),
            forall|j: int| 0 <= j < i ==> #[trigger] hay@.subrange(j, j + n) != needle@,
        decreases h - n + 1 - i,
    {
        let mut k: usize = 0;
        while k < n && hay[i + k] == needle[k]
            invariant
                n <= h,
                i <= h - n,
                h == hay@.len(),
                n == needle@.len(),
                k <= n,
                forall|t: int| 0 <= t < k ==> hay@[i + t] == needle@[t],
            decreases n - k,
        {
            k = k + 1;
        }
        if k == n {
            assert(hay@.subrange(i as int, i + n) =~= needle@);
            return true;
        }
        assert(hay@.subrange(i as int, i + n)[k as int] != needle@[k as int]);
        i = i + 1;
    }
    assert forall|j: int| 0 <= j && j + n <= h implies #[trigger] hay@.subrange(j, j + n) != needle@ by {
        assert(j < i);
    }
    false
}

/// What the filter shows whose lower-cased name holds the lower-cased query.
pub open spec fn hits(entries: Seq<Entry>, f: Filter, query: Seq<char>, n: nat) -> Seq<usize>
    decreases n,
{
    if n == 0 {
        Seq::empty()
    } else {
        let before = hits(entries, f, query, (n - 1) as nat);
        let e = entries[n - 1];
        if visible(f, e) && occurs(lowercase(e.spec_name()), lowercase(query)) {
            before.push((n - 1) as usize)
        } else {
            before
        }
    }
}

/// What a search finds, ascending.
pub fn search_hits(entries: &Vec<Entry>, filter: Filter, query: &str) -> (r: Vec<usize>)
    ensures
        r@ == hits(entries@, filter, query@, entries@.len()),
{
    let q = chars_of(to_lowercase(query).as_str());
    let mut out: Vec<usize> = Vec::new();
    let mut i: usize = 0;
    while i < entries.len()
        invariant
            i <= entries@.len(),
            q@ == lowercase(query@),
            out@ == hits(entries@, filter, query@, i as nat),
        decreases entries@.len() - i,
    {
        if entry_visible(filter, &entries[i]) {
            let name = chars_of(to_lowercase(entries[i].name().as_str()).as_str());
            if occurs_in(&name, &q) {
                out.push(i);
            }
        }
        i = i + 1;
    }
    out
}

/// Text holds the query when it is the query with text before and after,
/// anywhere in it; and only then.
pub proof fn law_occurs_anywhere(a: Seq<char>, q: Seq<char>, b: Seq<char>, hay: Seq<char>)
    ensures
        occurs(a + q + b, q),
        occurs(hay, q) ==> exists|x: Seq<char>, y: Seq<char>| hay == #[trigger] (x + q + y),
{
    let h = a + q + b;
    assert(h.subrange(a.len() as int, a.len() + q.len() as int) =~= q);
    if occurs(hay, q) {
        let i = choose|i: int| 0 <= i && i + q.len() <= hay.len() && #[trigger] hay.subrange(i, i + q.len()) == q;
        let x = hay.subrange(0, i);
        let y = hay.subrange(i + q.len(), hay.len() as int);
        assert(hay =~= x + q + y);
    }
}

/// What `hits` holds: the indices below `n` of the entries the filter shows
/// whose lower-cased name holds the lower-cased query.
proof fn lemma_hits_members(entries: Seq<Entry>, f: Filter, query: Seq<char>, n: nat)
    requires
        n <= entries.len(),
        entries.len() <= usize::MAX,
    ensures
        forall|x: usize| #[trigger] hits(entries, f, query, n).contains(x) <==> (x < n && visible(
            f,
            entries[x as int],
        ) && occurs(lowercase(entries[x as int].spec_name()), lowercase(query))),
    decreases n,
{
    if n > 0 {
        let before = hits(entries, f, query, (n - 1) as nat);
        lemma_hits_members(entries, f, query, (n - 1) as nat);
        let e = entries[n - 1];
        if visible(f, e) && occurs(lowercase(e.spec_name()), lowercase(query)) {
            let now = before.push((n - 1) as usize);
            assert forall|x: usize| #[trigger] now.contains(x) <==> (x < n && visible(f, entries[x as int])
                && occurs(lowercase(entries[x as int].spec_name()), lowercase(query))) by {
                if now.contains(x) {
                    let k = choose|k: int| 0 <= k < now.len() && now[k] == x;
                    if k < before.len() {
                        assert(now[k] == before[k]);
                        assert(before.contains(x));
                    } else {
                        assert(x == n - 1);
                    }
                }
                if x < n && visible(f, entries[x as int]) && occurs(
                    lowercase(entries[x as int].spec_name()),
                    lowercase(query),
                ) {
                    if x == n - 1 {
                        assert(now[now.len() - 1] == x);
                    } else {
                        assert(before.contains(x));
                        let k = choose|k: int| 0 <= k < before.len() && before[k] == x;
                        assert(now[k] == x);
                    }
                }
            }
        }
    }
}

/// A search over every entry finds exactly those whose lower-cased name is
/// the lower-cased query with any text before and after it.
pub proof fn law_search_finds_infixes(entries: Seq<Entry>, query: Seq<char>)
    requires
        entries.len() <= usize::MAX,
    ensures
        forall|x: usize, a: Seq<char>, b: Seq<char>|
            #![trigger hits(entries, Filter::All, query, entries.len()).contains(x), a + lowercase(query) + b]
            x < entries.len() && lowercase(entries[x as int].spec_name()) == a + lowercase(query) + b
                ==> hits(entries, Filter::All, query, entries.len()).contains(x),
        forall|x: usize| #[trigger] hits(entries, Filter::All, query, entries.len()).contains(x) ==> x
            < entries.len() && exists|a: Seq<char>, b: Seq<char>|
            lowercase(entries[x as int].spec_name()) == #[trigger] (a + lowercase(query) + b),
{
    lemma_hits_members(entries, Filter::All, query, entries.len());
    assert forall|x: usize, a: Seq<char>, b: Seq<char>|
        #![trigger hits(entries, Filter::All, query, entries.len()).contains(x), a + lowercase(query) + b]
        x < entries.len() && lowercase(entries[x as int].spec_name()) == a + lowercase(query) + b implies
        hits(entries, Filter::All, query, entries.len()).contains(x) by {
        law_occurs_anywhere(a, lowercase(query), b, a + lowercase(query) + b);
    }
    assert forall|x: usize| #[trigger] hits(entries, Filter::All, query, entries.len()).contains(x) implies x
        < entries.len() && exists|a: Seq<char>, b: Seq<char>|
        lowercase(entries[x as int].spec_name()) == #[trigger] (a + lowercase(query) + b) by {
        law_occurs_anywhere(
            Seq::empty(),
            lowercase(query),
            Seq::empty(),
            lowercase(entries[x as int].spec_name()),
        );
    }
}

/// Under any filter, a search finds exactly the entries that filter lists
/// whose lower-cased name holds the lower-cased query.
pub proof fn law_search_within_filter(entries: Seq<Entry>, f: Filter, query: Seq<char>)
    requires
        entries.len() <= usize::MAX,
    ensures
        forall|x: usize| #[trigger] hits(entries, f, query, entries.len()).contains(x) <==> (shown(
            entries,
            f,
            false,
            entries.len(),
        ).contains(x) && occurs(lowercase(entries[x as int].spec_name()), lowercase(query))),
{
    lemma_hits_members(entries, f, query, entries.len());
    lemma_shown_members(entries, f, false, entries.len());
}

/// How many of the first `n` entries are images.
pub open spec fn image_count(entries: Seq<Entry>, n: nat) -> nat
    decreases n,
{
    if n == 0 {
        0
    } else {
        image_count(entries, (n - 1) as nat) + if entries[n - 1].is_image() {
            1nat
        } else {
            0nat
        }
    }
}

/// Thumbnails ready out of the images listed; none without images.
pub fn thumb_progress(entries: &Vec<Entry>, loaded: usize) -> (r: Option<(usize, usize)>)
    ensures
        image_count(entries@, entries@.len()) == 0 ==> r is None,
        image_count(entries@, entries@.len()) > 0 ==> r == Some(
            (
                if loaded < image_count(entries@, entries@.len()) {
                    loaded
                } else {
                    image_count(entries@, entries@.len()) as usize
                },
                image_count(entries@, entries@.len()) as usize,
            ),
        ),
{
    let mut total: usize = 0;
    let mut i: usize = 0;
    while i < entries.len()
        invariant
            i <= entries@.len(),
            total == image_count(entries@, i as nat),
            total <= i,
        decreases entries@.len() - i,
    {
        if entries[i].is_image_entry() {
            total = total + 1;
        }
        i = i + 1;
    }
    if total == 0 {
        return None;
    }
    Some(
        (
            if loaded < total {
                loaded
            } else {
                total
            },
            total,
        ),
    )
}

/// Where focus goes once the `removing` paths leave: the first visible
/// entry that stays, from the open image (or the focused one) on, else the
/// last one before it.
pub open spec fn stays(entries: Seq<Entry>, removing: Seq<Seq<Seq<char>>>, i: usize) -> bool {
    i < entries.len() && !removing.contains(entries[i as int].spec_path())
}

pub open spec fn first_staying_from(
    entries: Seq<Entry>,
    vis: Seq<usize>,
    removing: Seq<Seq<Seq<char>>>,
    start: usize,
    k: int,
) -> Option<usize>
    decreases vis.len() - k,
{
    if k < 0 || k >= vis.len() {
        None
    } else if stays(entries, removing, vis[k]) && vis[k] >= start {
        Some(vis[k])
    } else {
        first_staying_from(entries, vis, removing, start, k + 1)
    }
}

pub open spec fn last_staying_before(
    entries: Seq<Entry>,
    vis: Seq<usize>,
    removing: Seq<Seq<Seq<char>>>,
    start: usize,
    k: int,
) -> Option<usize>
    decreases k,
{
    if k <= 0 || k > vis.len() {
        None
    } else if stays(entries, removing, vis[k - 1]) && vis[k - 1] < start {
        Some(vis[k - 1])
    } else {
        last_staying_before(entries, vis, removing, start, k - 1)
    }
}

pub open spec fn neighbor_of(
    entries: Seq<Entry>,
    vis: Seq<usize>,
    removing: Seq<Seq<Seq<char>>>,
    start: usize,
) -> Option<usize> {
    match first_staying_from(entries, vis, removing, start, 0) {
        Some(i) => Some(i),
        None => last_staying_before(entries, vis, removing, start, vis.len() as int),
    }
}

fn is_removed(removing: &Vec<LibPath>, p: &LibPath) -> (r: bool)
    ensures
        r == removing@.map_values(|q: LibPath| q@).contains(p@),
{
    let ghost views = removing@.map_values(|q: LibPath| q@);
    let mut i: usize = 0;
    while i < removing.len()
        invariant
            i <= removing@.len(),
            views == removing@.map_values(|q: LibPath| q@),
            forall|k: int| 0 <= k < i ==> views[k] != p@,
        decreases removing@.len() - i,
    {
        if removing[i].same(p) {
            assert(views[i as int] == p@);
            return true;
        }
        i = i + 1;
    }
    false
}

/// The index focus moves to when `removing` leave the visible `vis`,
/// starting from `start` (the open image, else the focused entry).
pub fn neighbor_index(entries: &Vec<Entry>, vis: &[usize], removing: &Vec<LibPath>, start: usize) -> (r:
    Option<usize>)
    ensures
        r == neighbor_of(entries@, vis@, removing@.map_values(|q: LibPath| q@), start),
{
    let ghost rm = removing@.map_values(|q: LibPath| q@);
    let mut k: usize = 0;
    while k < vis.len()
        invariant
            k <= vis@.len(),
            rm == removing@.map_values(|q: LibPath| q@),
            first_staying_from(entries@, vis@, rm, start, 0) == first_staying_from(
                entries@,
                vis@,
                rm,
                start,
                k as int,
            ),
        decreases vis@.len() - k,
    {
        let i = vis[k];
        if i < entries.len() && !is_removed(removing, entries[i].path()) && i >= start {
            return Some(i);
        }
        k = k + 1;
    }
    let mut k: usize = vis.len();
    while k > 0
        invariant
            k <= vis@.len(),
            rm == removing@.map_values(|q: LibPath| q@),
            first_staying_from(entries@, vis@, rm, start, 0) is None,
            last_staying_before(entries@, vis@, rm, start, vis@.len() as int) == last_staying_before(
                entries@,
                vis@,
                rm,
                start,
                k as int,
            ),
        decreases k,
    {
        let i = vis[k - 1];
        if i < entries.len() && !is_removed(removing, entries[i].path()) && i < start {
            return Some(i);
        }
        k = k - 1;
    }
    None
}

/// The paths of the images in the listing, in order: the thumbnails to
/// load.
pub open spec fn image_paths_of(entries: Seq<Entry>) -> Seq<Seq<Seq<char>>>
    decreases entries.len(),
{
    if entries.len() == 0 {
        Seq::empty()
    } else if entries.last().is_image() {
        image_paths_of(entries.drop_last()).push(entries.last().spec_path())
    } else {
        image_paths_of(entries.drop_last())
    }
}

pub fn image_paths(entries: &Vec<Entry>) -> (r: Vec<LibPath>)
    ensures
        paths_of(r@) == image_paths_of(entries@),
{
    let mut out: Vec<LibPath> = Vec::new();
    let mut i: usize = 0;
    while i < entries.len()
        invariant
            i <= entries@.len(),
            paths_of(out@) == image_paths_of(entries@.take(i as int)),
        decreases entries@.len() - i,
    {
        assert(entries@.take(i + 1).drop_last() =~= entries@.take(i as int));
        assert(entries@.take(i + 1).last() == entries@[i as int]);
        if entries[i].is_image_entry() {
            let ghost prev = out@;
            out.push(entries[i].path().copied());
            assert(paths_of(out@) =~= paths_of(prev).push(entries@[i as int].spec_path()));
        }
        i = i + 1;
    }
    assert(entries@.take(entries@.len() as int) =~= entries@);
    out
}

/// `n` as text.
pub open spec fn count_text(n: usize) -> Seq<char> {
    decimal(n as nat)
}

/// The status line at the bottom of the grid.
pub open spec fn status_of(
    loading: bool,
    flat: bool,
    folders: usize,
    media: usize,
    checked: usize,
    cut: Option<usize>,
    thumbs: Option<(usize, usize)>,
) -> Seq<char> {
    if loading {
        "Loading…"@
    } else {
        let sep = " · "@;
        let head = if flat {
            count_text(media) + " media"@
        } else {
            count_text(folders) + " folders · "@ + count_text(media) + " media"@
        };
        let a = if checked > 0 {
            head + sep + count_text(checked) + " selected"@
        } else {
            head
        };
        let b = match cut {
            Some(n) => a + sep + count_text(n) + " cut"@,
            None => a,
        };
        match thumbs {
            Some((done, total)) => if done < total {
                b + sep + "thumbs "@ + count_text(done) + "/"@ + count_text(total)
            } else {
                b
            },
            None => b,
        }
    }
}

fn append_count(s: &mut String, n: usize)
    ensures
        final(s)@ == old(s)@ + count_text(n),
{
    let d = decimal_usize(n);
    s.append(d.as_str());
}

pub fn status_left(
    loading: bool,
    flat: bool,
    folders: usize,
    media: usize,
    checked: usize,
    cut: Option<usize>,
    thumbs: Option<(usize, usize)>,
) -> (r: String)
    ensures
        r@ == status_of(loading, flat, folders, media, checked, cut, thumbs),
{
    if loading {
        return String::from_str("Loading…");
    }
    let mut s = String::new();
    if flat {
        append_count(&mut s, media);
        s.append(" media");
    } else {
        append_count(&mut s, folders);
        s.append(" folders · ");
        append_count(&mut s, media);
        s.append(" media");
    }
    if checked > 0 {
        s.append(" · ");
        append_count(&mut s, checked);
        s.append(" selected");
    }
    if let Some(n) = cut {
        s.append(" · ");
        append_count(&mut s, n);
        s.append(" cut");
    }
    if let Some((done, total)) = thumbs {
        if done < total {
            s.append(" · ");
            s.append("thumbs ");
            append_count(&mut s, done);
            s.append("/");
            append_count(&mut s, total);
        }
    }
    assert(s@ =~= status_of(loading, flat, folders, media, checked, cut, thumbs));
    s
}

} // verus!
