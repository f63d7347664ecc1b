//! Filters, focus movement, image stepping and the filmstrip, over listing
//! indices.

use vstd::arithmetic::div_mod::{lemma_fundamental_div_mod, lemma_fundamental_div_mod_converse};
use vstd::prelude::*;

use crate::media::types::{Entry, MediaKind};
use crate::path::{parent_of, starts_with, LibPath};

verus! {

/// Which entries the grid shows.
#[derive(Clone, Copy, Debug, PartialEq, Eq, Structural)]
pub enum Filter {
    All,
    Images,
    Videos,
}

pub open spec fn visible(f: Filter, e: Entry) -> bool {
    match f {
        Filter::All => true,
        Filter::Images => e.is_image(),
        Filter::Videos => e.is_video(),
    }
}

pub fn entry_visible(filter: Filter, entry: &Entry) -> (r: bool)
    ensures
        r == visible(filter, *entry),
{
    match filter {
        Filter::All => true,
        Filter::Images => entry.is_image_entry(),
        Filter::Videos => entry.is_video_entry(),
    }
}

/// Indices below `n`, ascending, of the entries the filter shows (images
/// only, with `images`).
pub open spec fn shown(entries: Seq<Entry>, f: Filter, images: bool, n: nat) -> Seq<usize>
    decreases n,
{
    if n == 0 {
        Seq::empty()
    } else {
        let before = shown(entries, f, images, (n - 1) as nat);
        let e = entries[n - 1];
        if visible(f, e) && (!images || e.is_image()) {
            before.push((n - 1) as usize)
        } else {
            before
        }
    }
}

fn shown_indices(entries: &Vec<Entry>, filter: Filter, images: bool) -> (r: Vec<usize>)
    ensures
        r@ == shown(entries@, filter, images, entries@.len()),
{
    let mut out: Vec<usize> = Vec::new();
    let mut i: usize = 0;
    while i < entries.len()
        invariant
            i <= entries@.len(),
            out@ == shown(entries@, filter, images, i as nat),
        decreases entries@.len() - i,
    {
        if entry_visible(filter, &entries[i]) && (!images || entries[i].is_image_entry()) {
            out.push(i);
        }
        i = i + 1;
    }
    out
}

/// Indices of the entries the filter shows, ascending.
pub fn visible_indices(entries: &Vec<Entry>, filter: Filter) -> (r: Vec<usize>)
    ensures
        r@ == shown(entries@, filter, false, entries@.len()),
{
    shown_indices(entries, filter, false)
}

/// Indices of the images the filter shows, ascending.
pub fn visible_image_indices(entries: &Vec<Entry>, filter: Filter) -> (r: Vec<usize>)
    ensures
        r@ == shown(entries@, filter, true, entries@.len()),
{
    shown_indices(entries, filter, true)
}

/// What `shown` holds: the indices below `n` of the entries the filter
/// shows, once each.
pub(crate) proof fn lemma_shown_members(entries: Seq<Entry>, f: Filter, images: bool, n: nat)
    requires
        n <= entries.len(),
        entries.len() <= usize::MAX,
    ensures
        forall|x: usize| #[trigger] shown(entries, f, images, n).contains(x) <==> (x < n && visible(
            f,
            entries[x as int],
        ) && (!images || entries[x as int].is_image())),
        forall|k: int| 0 <= k < shown(entries, f, images, n).len() ==> #[trigger] shown(entries, f, images, n)[k] < n,
    decreases n,
{
    if n > 0 {
        let before = shown(entries, f, images, (n - 1) as nat);
        lemma_shown_members(entries, f, images, (n - 1) as nat);
        let e = entries[n - 1];
        if visible(f, e) && (!images || e.is_image()) {
            let now = before.push((n - 1) as usize);
            assert forall|x: usize| #[trigger] now.contains(x) <==> (x < n && visible(f, entries[x as int]) && (
            !images || entries[x as int].is_image())) by {
                if now.contains(x) {
                    let k = choose|k: int| 0 <= k < now.len() && now[k] == x;
                    if k < before.len() {
                        assert(now[k] == before[k]);
                        assert(before.contains(x));
                    } else {
                        assert(x == n - 1);
                    }
                }
                if x < n && visible(f, entries[x as int]) && (!images || entries[x as int].is_image()) {
                    if x == n - 1 {
                        assert(now[now.len() - 1] == x);
                    } else {
                        assert(before.contains(x));
                        let k = choose|k: int| 0 <= k < before.len() && before[k] == x;
                        assert(now[k] == x);
                    }
                }
            }
            assert forall|k: int| 0 <= k < now.len() implies #[trigger] now[k] < n by {
                if k < before.len() {
                    assert(now[k] == before[k]);
                }
            }
        }
    }
}

/// The Images filter shows exactly the still images, the Videos filter
/// exactly the videos, and All every entry: an index is listed when and only
/// when its entry is of that kind.
pub proof fn law_filters_show_their_kind(entries: Seq<Entry>)
    requires
        entries.len() <= usize::MAX,
    ensures
        forall|x: usize| #[trigger] shown(entries, Filter::Images, false, entries.len()).contains(x) <==> (x
            < entries.len() && (entries[x as int] matches Entry::Media(m) && m.kind == MediaKind::Image)),
        forall|x: usize| #[trigger] shown(entries, Filter::Videos, false, entries.len()).contains(x) <==> (x
            < entries.len() && (entries[x as int] matches Entry::Media(m) && m.kind == MediaKind::Video)),
        forall|x: usize| #[trigger] shown(entries, Filter::All, false, entries.len()).contains(x) <==> x
            < entries.len(),
{
    lemma_shown_members(entries, Filter::Images, false, entries.len());
    lemma_shown_members(entries, Filter::Videos, false, entries.len());
    lemma_shown_members(entries, Filter::All, false, entries.len());
}

/// Where `x` first occurs in `v`, looking from `k`.
pub open spec fn index_from(v: Seq<usize>, x: usize, k: int) -> Option<int>
    decreases v.len() - k,
{
    if k < 0 || k >= v.len() {
        None
    } else if v[k] == x {
        Some(k)
    } else {
        index_from(v, x, k + 1)
    }
}

pub open spec fn index_of(v: Seq<usize>, x: usize) -> Option<int> {
    index_from(v, x, 0)
}

proof fn lemma_index_from(v: Seq<usize>, x: usize, k: int)
    requires
        0 <= k,
    ensures
        index_from(v, x, k) matches Some(p) ==> k <= p < v.len() && v[p] == x,
        index_from(v, x, k) is None ==> forall|j: int| k <= j < v.len() ==> v[j] != x,
    decreases v.len() - k,
{
    if k < v.len() && v[k] != x {
        lemma_index_from(v, x, k + 1);
    }
}

/// Where `x` is in `v`.
pub fn position(v: &[usize], x: usize) -> (r: Option<usize>)
    ensures
        r matches Some(p) ==> index_of(v@, x) == Some(p as int),
        r is None ==> index_of(v@, x) is None,
{
    let mut k: usize = 0;
    while k < v.len()
        invariant
            k <= v@.len(),
            index_of(v@, x) == index_from(v@, x, k as int),
        decreases v@.len() - k,
    {
        if v[k] == x {
            return Some(k);
        }
        k = k + 1;
    }
    None
}

/// `s` is strictly increasing.
pub open spec fn ascending(s: Seq<usize>) -> bool {
    forall|i: int, j: int| 0 <= i < j < s.len() ==> s[i] < s[j]
}

/// A shift-click run of an ascending list is ascending, and lies inside it.
pub proof fn lemma_range_ascending(vis: Seq<usize>, anchor: usize, to: usize)
    requires
        ascending(vis),
        vis.len() > 0,
    ensures
        ascending(range_of(vis, anchor, to)),
        forall|i: int| 0 <= i < range_of(vis, anchor, to).len() ==> vis.contains(
            #[trigger] range_of(vis, anchor, to)[i],
        ),
{
    lemma_index_from(vis, anchor, 0);
    lemma_index_from(vis, to, 0);
    let r = range_of(vis, anchor, to);
    let a = match index_of(vis, anchor) {
        Some(p) => p,
        None => 0,
    };
    let b = match index_of(vis, to) {
        Some(p) => p,
        None => 0,
    };
    let lo = if a <= b {
        a
    } else {
        b
    };
    assert forall|i: int| 0 <= i < r.len() implies vis.contains(#[trigger] r[i]) by {
        assert(r[i] == vis[lo + i]);
    }
}

/// Shift-click: the visible indices from the anchor to the clicked one,
/// either way round; an index not shown counts as the first.
pub open spec fn range_of(visible: Seq<usize>, anchor: usize, to: usize) -> Seq<usize> {
    let a = match index_of(visible, anchor) {
        Some(p) => p,
        None => 0,
    };
    let b = match index_of(visible, to) {
        Some(p) => p,
        None => 0,
    };
    if a <= b {
        visible.subrange(a, b + 1)
    } else {
        visible.subrange(b, a + 1)
    }
}

pub fn range_select(visible: &[usize], anchor: usize, to: usize) -> (r: Vec<usize>)
    requires
        visible@.len() > 0,
    ensures
        r@ == range_of(visible@, anchor, to),
{
    proof {
        lemma_index_from(visible@, anchor, 0);
        lemma_index_from(visible@, to, 0);
    }
    let a = match position(visible, anchor) {
        Some(p) => p,
        None => 0,
    };
    let b = match position(visible, to) {
        Some(p) => p,
        None => 0,
    };
    let (lo, hi) = if a <= b {
        (a, b)
    } else {
        (b, a)
    };
    let mut out: Vec<usize> = Vec::new();
    let mut k: usize = lo;
    while k <= hi
        invariant
            lo <= hi < visible@.len(),
            lo <= k <= hi + 1,
            out@ == visible@.subrange(lo as int, k as int),
        decreases hi + 1 - k,
    {
        out.push(visible[k]);
        assert(out@ =~= visible@.subrange(lo as int, k + 1));
        k = k + 1;
    }
    out
}

/// `t` wrapped into `0..len`, as `rem_euclid` does.
fn wrap_index(t: i128, len: usize) -> (r: usize)
    requires
        len > 0,
        t > i128::MIN,
    ensures
        r as int == t as int % len as int,
        r < len,
{
    let l = len as i128;
    if t >= 0 {
        let m = t % l;
        proof {
            lemma_fundamental_div_mod(t as int, l as int);
            lemma_fundamental_div_mod_converse(t as int, l as int, t as int / l as int, m as int);
        }
        m as usize
    } else {
        let u = -t - 1;
        let q = u % l;
        let r = l - 1 - q;
        proof {
            lemma_fundamental_div_mod(u as int, l as int);
            let a = u as int / l as int;
            assert(t as int == (-a - 1) * (l as int) + r as int) by (nonlinear_arith)
                requires
                    u as int == l as int * a + q as int,
                    u as int == -(t as int) - 1,
                    r as int == l as int - 1 - q as int,
            ;
            lemma_fundamental_div_mod_converse(t as int, l as int, -a - 1, r as int);
        }
        r as usize
    }
}

/// Arrow keys in the grid: from the focused entry's place among the visible
/// ones (the first when it is not shown), `delta` places on, wrapping round
/// or stopping at the ends.
pub open spec fn focus_after(vis: Seq<usize>, focused: Option<usize>, delta: int, wrap: bool) -> Option<usize> {
    if vis.len() == 0 {
        None
    } else {
        let cur = match focused {
            Some(f) => match index_of(vis, f) {
                Some(p) => p,
                None => 0,
            },
            None => 0,
        };
        let t = cur + delta;
        let len = vis.len() as int;
        let next = if wrap {
            t % len
        } else if t < 0 {
            0
        } else if t > len - 1 {
            len - 1
        } else {
            t
        };
        Some(vis[next])
    }
}

pub fn move_focus(vis: &[usize], focused: Option<usize>, delta: isize, wrap: bool) -> (r: Option<usize>)
    ensures
        r == focus_after(vis@, focused, delta as int, wrap),
{
    let len = vis.len();
    if len == 0 {
        return None;
    }
    proof {
        if let Some(f) = focused {
            lemma_index_from(vis@, f, 0);
        }
    }
    let cur: usize = match focused {
        Some(f) => match position(vis, f) {
            Some(p) => p,
            None => 0,
        },
        None => 0,
    };
    let t: i128 = cur as i128 + delta as i128;
    let next: usize = if wrap {
        wrap_index(t, len)
    } else if t < 0 {
        0
    } else if t > (len - 1) as i128 {
        len - 1
    } else {
        t as usize
    };
    Some(vis[next])
}

/// Looking for an image the filter shows, from `i`, stepping by `step`
/// round the listing, at most `left` more places.
pub open spec fn image_scan(entries: Seq<Entry>, f: Filter, i: int, step: int, left: nat) -> Option<usize>
    decreases left,
{
    if left == 0 || entries.len() == 0 {
        None
    } else if entries[i].is_image() && visible(f, entries[i]) {
        Some(i as usize)
    } else {
        image_scan(entries, f, (i + step) % (entries.len() as int), step, (left - 1) as nat)
    }
}

/// The next image for the lightbox: from the one after the open image (or
/// from the focused entry), stepping by `step` round the listing once.
pub open spec fn next_image(
    entries: Seq<Entry>,
    f: Filter,
    selected: Option<usize>,
    focused: Option<usize>,
    step: int,
) -> Option<usize> {
    let start = match selected {
        Some(s) => s + step,
        None => match focused {
            Some(x) => x as int,
            None => 0,
        },
    };
    if entries.len() == 0 {
        None
    } else {
        image_scan(entries, f, start % (entries.len() as int), step, entries.len())
    }
}

pub fn step_image(
    entries: &Vec<Entry>,
    filter: Filter,
    selected: Option<usize>,
    focused: Option<usize>,
    step: isize,
) -> (r: Option<usize>)
    ensures
        r == next_image(entries@, filter, selected, focused, step as int),
        r matches Some(i) ==> i < entries@.len() && entries@[i as int].is_image() && visible(
            filter,
            entries@[i as int],
        ),
{
    let len = entries.len();
    if len == 0 {
        return None;
    }
    let start: i128 = match selected {
        Some(s) => s as i128 + step as i128,
        None => match focused {
            Some(x) => x as i128,
            None => 0,
        },
    };
    let mut i: usize = wrap_index(start, len);
    let mut left: usize = len;
    while left > 0
        invariant
            len == entries@.len(),
            len > 0,
            i < len,
            left <= len,
            next_image(entries@, filter, selected, focused, step as int) == image_scan(
                entries@,
                filter,
                i as int,
                step as int,
                left as nat,
            ),
        decreases left,
    {
        if entries[i].is_image_entry() && entry_visible(filter, &entries[i]) {
            return Some(i);
        }
        i = wrap_index(i as i128 + step as i128, len);
        left = left - 1;
    }
    None
}

/// The lightbox filmstrip: up to nine images around the open one, shifted
/// to stay inside the list.
pub open spec fn filmstrip_of(imgs: Seq<usize>, current: usize) -> Seq<usize> {
    match index_of(imgs, current) {
        None => Seq::empty(),
        Some(pos) => {
            let start0 = if pos >= 4 {
                pos - 4
            } else {
                0
            };
            let end = if start0 + 9 < imgs.len() {
                start0 + 9
            } else {
                imgs.len() as int
            };
            let start = if end >= 9 {
                end - 9
            } else {
                0
            };
            imgs.subrange(start, end)
        },
    }
}

pub fn filmstrip_indices(imgs: &[usize], current: usize) -> (r: Vec<usize>)
    ensures
        r@ == filmstrip_of(imgs@, current),
{
    proof {
        lemma_index_from(imgs@, current, 0);
    }
    let pos = match position(imgs, current) {
        Some(p) => p,
        None => return Vec::new(),
    };
    let start0 = if pos >= 4 {
        pos - 4
    } else {
        0
    };
    let end = if imgs.len() - start0 > 9 {
        start0 + 9
    } else {
        imgs.len()
    };
    let start = if end >= 9 {
        end - 9
    } else {
        0
    };
    let mut out: Vec<usize> = Vec::new();
    let mut k: usize = start;
    while k < end
        invariant
            start <= k <= end <= imgs@.len(),
            out@ == imgs@.subrange(start as int, k as int),
        decreases end - k,
    {
        out.push(imgs[k]);
        assert(out@ =~= imgs@.subrange(start as int, k + 1));
        k = k + 1;
    }
    out
}

/// The filmstrip of an image in the list holds it, and nine images or the
/// whole list when shorter.
pub proof fn law_filmstrip_window(imgs: Seq<usize>, current: usize)
    requires
        imgs.contains(current),
    ensures
        filmstrip_of(imgs, current).contains(current),
        filmstrip_of(imgs, current).len() == if imgs.len() < 9 {
            imgs.len()
        } else {
            9
        },
{
    lemma_index_from(imgs, current, 0);
    assert(imgs.subrange(0, imgs.len() as int) =~= imgs);
    let pos = index_of(imgs, current)->0;
    let start0 = if pos >= 4 {
        pos - 4
    } else {
        0
    };
    let end = if start0 + 9 < imgs.len() {
        start0 + 9
    } else {
        imgs.len() as int
    };
    let start = if end >= 9 {
        end - 9
    } else {
        0
    };
    assert(imgs.subrange(start, end)[pos - start] == current);
}

/// The images next to the open one in the list, before then after.
pub open spec fn neighbors_of(imgs: Seq<usize>, current: usize) -> Seq<usize> {
    match index_of(imgs, current) {
        None => Seq::empty(),
        Some(pos) => {
            let before = if pos >= 1 {
                seq![imgs[pos - 1]]
            } else {
                Seq::empty()
            };
            let after = if pos + 1 < imgs.len() {
                seq![imgs[pos + 1]]
            } else {
                Seq::empty()
            };
            before + after
        },
    }
}

pub fn neighbor_indices(imgs: &[usize], current: usize) -> (r: Vec<usize>)
    ensures
        r@ == neighbors_of(imgs@, current),
{
    proof {
        lemma_index_from(imgs@, current, 0);
    }
    let mut out: Vec<usize> = Vec::new();
    let pos = match position(imgs, current) {
        Some(p) => p,
        None => return out,
    };
    if pos >= 1 {
        out.push(imgs[pos - 1]);
    }
    if pos + 1 < imgs.len() {
        out.push(imgs[pos + 1]);
    }
    assert(out@ =~= neighbors_of(imgs@, current));
    out
}

/// Tiles dragged onto the folder `dest` that would move: not those already
/// directly in it, nor `dest` itself or a folder holding it.
pub open spec fn drops_into(dest: Seq<Seq<char>>) -> spec_fn(LibPath) -> bool {
    |p: LibPath| parent_of(p@) != Some(dest) && dest != p@ && !starts_with(dest, p@)
}

pub fn filter_internal_drop(paths: &Vec<LibPath>, dest: &LibPath) -> (r: Vec<LibPath>)
    ensures
        r@.len() == paths@.filter(drops_into(dest@)).len(),
        forall|i: int| 0 <= i < r@.len() ==> #[trigger] r@[i]@ == paths@.filter(drops_into(dest@))[i]@,
{
    let ghost keep = drops_into(dest@);
    let mut out: Vec<LibPath> = Vec::new();
    let mut i: usize = 0;
    assert(paths@.take(0).filter(keep) =~= Seq::<LibPath>::empty()) by {
        reveal(Seq::filter);
    }
    while i < paths.len()
        invariant
            i <= paths@.len(),
            keep == drops_into(dest@),
            out@.len() == paths@.take(i as int).filter(keep).len(),
            forall|k: int| 0 <= k < out@.len() ==> #[trigger] out@[k]@ == paths@.take(i as int).filter(keep)[k]@,
        decreases paths@.len() - i,
    {
        let p = &paths[i];
        proof {
            paths@.take(i as int).lemma_filter_push(paths@[i as int], keep);
            assert(paths@.take(i + 1) =~= paths@.take(i as int).push(paths@[i as int]));
        }
        let in_dest = match p.parent() {
            Some(q) => q.same(dest),
            None => false,
        };
        if !in_dest && !dest.same(p) && !dest.starts_with(p) {
            out.push(p.copied());
        }
        i = i + 1;
    }
    assert(paths@.take(paths@.len() as int) =~= paths@);
    out
}

} // verus!
