//! Listing order: folders first, then by name, date, size or type, either
//! way round, and stable among equals.

use vstd::prelude::*;
use vstd::string::*;

use crate::media::types::{Entry, MediaKind};
use crate::text::same_text;

verus! {

#[derive(Clone, Copy, PartialEq, Eq, Structural, Debug)]
pub enum SortKey {
    Name,
    Modified,
    Size,
    Type,
}

pub open spec fn key_pref(k: SortKey) -> Seq<char> {
    match k {
        SortKey::Name => "name"@,
        SortKey::Modified => "modified"@,
        SortKey::Size => "size"@,
        SortKey::Type => "type"@,
    }
}

pub open spec fn key_label(k: SortKey) -> Seq<char> {
    match k {
        SortKey::Name => "Name"@,
        SortKey::Modified => "Date"@,
        SortKey::Size => "Size"@,
        SortKey::Type => "Type"@,
    }
}

/// The stored names, read back; anything else sorts by name.
pub open spec fn key_from_pref(v: Seq<char>) -> SortKey {
    if v == "modified"@ {
        SortKey::Modified
    } else if v == "size"@ {
        SortKey::Size
    } else if v == "type"@ {
        SortKey::Type
    } else {
        SortKey::Name
    }
}

pub open spec fn key_next(k: SortKey) -> SortKey {
    match k {
        SortKey::Name => SortKey::Modified,
        SortKey::Modified => SortKey::Size,
        SortKey::Size => SortKey::Type,
        SortKey::Type => SortKey::Name,
    }
}

/// A stored sort key reads back as itself.
pub proof fn law_sort_pref_round_trip(k: SortKey)
    ensures
        key_from_pref(key_pref(k)) == k,
{
    reveal_strlit("name");
    reveal_strlit("modified");
    reveal_strlit("size");
    reveal_strlit("type");
    assert("name"@ != "modified"@ && "name"@ != "size"@ && "name"@ != "type"@) by {
        assert("name"@.len() != "modified"@.len());
        assert("name"@[0] != "size"@[0]);
        assert("name"@[0] != "type"@[0]);
    }
    assert("size"@ != "modified"@ && "type"@ != "modified"@ && "type"@ != "size"@) by {
        assert("size"@.len() != "modified"@.len());
        assert("type"@.len() != "modified"@.len());
        assert("type"@[0] != "size"@[0]);
    }
}

/// The sort button comes back to the key it started from after four
/// presses, and meets every key on the way.
pub proof fn law_sort_cycle(k: SortKey, j: SortKey)
    ensures
        key_next(key_next(key_next(key_next(k)))) == k,
        j == k || j == key_next(k) || j == key_next(key_next(k)) || j == key_next(
            key_next(key_next(k)),
        ),
{
}

impl SortKey {
    /// The name the key is stored under.
    pub fn as_pref(self) -> (r: &'static str)
        ensures
            r@ == key_pref(self),
    {
        match self {
            SortKey::Name => "name",
            SortKey::Modified => "modified",
            SortKey::Size => "size",
            SortKey::Type => "type",
        }
    }

    pub fn from_pref(value: &str) -> (r: SortKey)
        ensures
            r == key_from_pref(value@),
    {
        if same_text(value, "modified") {
            SortKey::Modified
        } else if same_text(value, "size") {
            SortKey::Size
        } else if same_text(value, "type") {
            SortKey::Type
        } else {
            SortKey::Name
        }
    }

    /// The name shown on the sort button.
    pub fn label(self) -> (r: &'static str)
        ensures
            r@ == key_label(self),
    {
        match self {
            SortKey::Name => "Name",
            SortKey::Modified => "Date",
            SortKey::Size => "Size",
            SortKey::Type => "Type",
        }
    }

    /// The key the sort button cycles to.
    pub fn next(self) -> (r: SortKey)
        ensures
            r == key_next(self),
    {
        match self {
            SortKey::Name => SortKey::Modified,
            SortKey::Modified => SortKey::Size,
            SortKey::Size => SortKey::Type,
            SortKey::Type => SortKey::Name,
        }
    }
}

/// What `str::to_lowercase` gives back (full Unicode lower-casing).
pub uninterp spec fn lowercase(s: Seq<char>) -> Seq<char>;

/// Lower-cases through `str::to_lowercase`; the result is named, not spelled
/// out: Unicode's case mapping takes tables to state.
#[verifier::external_body]
pub(crate) fn to_lowercase(s: &str) -> (r: String)
    ensures
        r@ == lowercase(s@),
{
    s.to_lowercase()
}

/// Three-way comparison by character codes, as `str`'s `Ord` orders text.
pub open spec fn lex(a: Seq<char>, b: Seq<char>) -> int
    decreases a.len(),
{
    if a.len() == 0 {
        if b.len() == 0 {
            0
        } else {
            -1
        }
    } else if b.len() == 0 {
        1
    } else if a[0] < b[0] {
        -1
    } else if a[0] > b[0] {
        1
    } else {
        lex(a.drop_first(), b.drop_first())
    }
}

pub open spec fn three_way(a: int, b: int) -> int {
    if a < b {
        -1
    } else if a > b {
        1
    } else {
        0
    }
}

/// Three-way comparison of two entries under the key, before direction.
pub open spec fn key_order(a: Entry, b: Entry, key: SortKey) -> int {
    let names = lex(lowercase(a.spec_name()), lowercase(b.spec_name()));
    match key {
        SortKey::Name => names,
        SortKey::Modified => three_way(a.spec_modified() as int, b.spec_modified() as int),
        SortKey::Size => three_way(a.spec_size() as int, b.spec_size() as int),
        SortKey::Type => if a.spec_type_key() != b.spec_type_key() {
            three_way(a.spec_type_key() as int, b.spec_type_key() as int)
        } else {
            names
        },
    }
}

/// Listing order: folders before files whatever the direction; otherwise
/// the key, reversed when descending.
pub open spec fn order(a: Entry, b: Entry, key: SortKey, desc: bool) -> int {
    if (a is Folder) != (b is Folder) {
        if a is Folder {
            -1
        } else {
            1
        }
    } else if desc {
        -key_order(a, b, key)
    } else {
        key_order(a, b, key)
    }
}

/// `p` lists each index below `n` once.
pub open spec fn is_permutation(p: Seq<int>, n: nat) -> bool {
    &&& p.len() == n
    &&& forall|i: int| 0 <= i < n ==> 0 <= #[trigger] p[i] < n
    &&& forall|i: int, j: int| 0 <= i < j < n ==> p[i] != p[j]
}

/// `s` is `orig` put in listing order, equal entries in their first order.
pub open spec fn stably_sorted(s: Seq<Entry>, orig: Seq<Entry>, key: SortKey, desc: bool) -> bool {
    exists|p: Seq<int>|
        {
            &&& is_permutation(p, orig.len())
            &&& s.len() == orig.len()
            &&& forall|i: int| 0 <= i < s.len() ==> #[trigger] s[i] == orig[p[i]]
            &&& forall|i: int, j: int|
                0 <= i < j < s.len() ==> order(#[trigger] s[i], #[trigger] s[j], key, desc) <= 0
            &&& forall|i: int, j: int|
                0 <= i < j < s.len() && order(#[trigger] s[i], #[trigger] s[j], key, desc) == 0
                    ==> p[i] < p[j]
        }
}

proof fn lemma_lex_antisym(a: Seq<char>, b: Seq<char>)
    ensures
        lex(a, b) == -lex(b, a),
        lex(a, b) == 0 <==> a == b,
    decreases a.len(),
{
    if a.len() > 0 && b.len() > 0 && a[0] == b[0] {
        lemma_lex_antisym(a.drop_first(), b.drop_first());
        if a.drop_first() == b.drop_first() {
            assert(a =~= seq![a[0]] + a.drop_first());
            assert(b =~= seq![b[0]] + b.drop_first());
        }
        if a == b {
            assert(a.drop_first() =~= b.drop_first());
        }
    } else if a.len() > 0 && b.len() > 0 {
        if a == b {
            assert(a[0] == b[0]);
        }
    } else if a.len() == 0 && b.len() == 0 {
        assert(a =~= b);
    }
}

proof fn lemma_lex_trans(a: Seq<char>, b: Seq<char>, c: Seq<char>)
    requires
        lex(a, b) <= 0,
        lex(b, c) <= 0,
    ensures
        lex(a, c) <= 0,
    decreases a.len(),
{
    if a.len() > 0 && b.len() > 0 && c.len() > 0 && a[0] == b[0] && b[0] == c[0] {
        lemma_lex_trans(a.drop_first(), b.drop_first(), c.drop_first());
    }
}

proof fn lemma_key_order_props(a: Entry, b: Entry, c: Entry, key: SortKey)
    ensures
        key_order(a, b, key) == -key_order(b, a, key),
        key_order(a, b, key) <= 0 && key_order(b, c, key) <= 0 ==> key_order(a, c, key) <= 0,
{
    lemma_lex_antisym(lowercase(a.spec_name()), lowercase(b.spec_name()));
    if lex(lowercase(a.spec_name()), lowercase(b.spec_name())) <= 0 && lex(
        lowercase(b.spec_name()),
        lowercase(c.spec_name()),
    ) <= 0 {
        lemma_lex_trans(
            lowercase(a.spec_name()),
            lowercase(b.spec_name()),
            lowercase(c.spec_name()),
        );
    }
}

/// `order` is a total preorder: antisymmetric in sign and transitive.
pub proof fn lemma_order_props(a: Entry, b: Entry, c: Entry, key: SortKey, desc: bool)
    ensures
        order(a, b, key, desc) == -order(b, a, key, desc),
        order(a, b, key, desc) <= 0 && order(b, c, key, desc) <= 0 ==> order(a, c, key, desc) <= 0,
{
    lemma_key_order_props(a, b, c, key);
    lemma_key_order_props(c, b, a, key);
    lemma_key_order_props(b, a, c, key);
    lemma_key_order_props(a, c, b, key);
}

/// The characters of `s`.
pub fn chars_of(s: &str) -> (r: Vec<char>)
    ensures
        r@ == s@,
{
    let n = s.unicode_len();
    let mut out: Vec<char> = Vec::new();
    let mut i: usize = 0;
    while i < n
        invariant
            n == s@.len(),
            i <= n,
            out@ == s@.subrange(0, i as int),
        decreases n - i,
    {
        out.push(s.get_char(i));
        assert(out@ =~= s@.subrange(0, i + 1));
        i = i + 1;
    }
    assert(s@.subrange(0, n as int) =~= s@);
    out
}

pub fn compare_chars(a: &Vec<char>, b: &Vec<char>) -> (r: i8)
    ensures
        r as int == lex(a@, b@),
        -1 <= r <= 1,
{
    let mut i: usize = 0;
    assert(a@.subrange(0, a@.len() as int) =~= a@);
    assert(b@.subrange(0, b@.len() as int) =~= b@);
    while i < a.len() && i < b.len() && a[i] == b[i]
        invariant
            i <= a.len(),
            i <= b.len(),
            lex(a@, b@) == lex(a@.subrange(i as int, a@.len() as int), b@.subrange(i as int, b@.len() as int)),
        decreases a.len() - i,
    {
        let ghost sa = a@.subrange(i as int, a@.len() as int);
        let ghost sb = b@.subrange(i as int, b@.len() as int);
        assert(sa.drop_first() =~= a@.subrange(i + 1, a@.len() as int));
        assert(sb.drop_first() =~= b@.subrange(i + 1, b@.len() as int));
        i = i + 1;
    }
    let ghost sa = a@.subrange(i as int, a@.len() as int);
    let ghost sb = b@.subrange(i as int, b@.len() as int);
    if i == a.len() {
        if i == b.len() {
            0
        } else {
            -1
        }
    } else if i == b.len() {
        1
    } else if a[i] < b[i] {
        assert(sa[0] == a@[i as int] && sb[0] == b@[i as int]);
        -1
    } else {
        assert(sa[0] == a@[i as int] && sb[0] == b@[i as int]);
        1
    }
}

fn compare_u64(a: u64, b: u64) -> (r: i8)
    ensures
        r as int == three_way(a as int, b as int),
        -1 <= r <= 1,
{
    if a < b {
        -1
    } else if a > b {
        1
    } else {
        0
    }
}

fn entry_order(a: &Entry, la: &Vec<char>, b: &Entry, lb: &Vec<char>, key: SortKey, desc: bool) -> (r:
    i8)
    requires
        la@ == lowercase(a.spec_name()),
        lb@ == lowercase(b.spec_name()),
    ensures
        r as int == order(*a, *b, key, desc),
{
    let af = a.is_folder();
    let bf = b.is_folder();
    if af != bf {
        return if af {
            -1
        } else {
            1
        };
    }
    let o: i8 = match key {
        SortKey::Name => compare_chars(la, lb),
        SortKey::Modified => compare_u64(a.modified(), b.modified()),
        SortKey::Size => compare_u64(a.size(), b.size()),
        SortKey::Type => {
            let ta = a.type_key();
            let tb = b.type_key();
            if ta != tb {
                compare_u64(ta as u64, tb as u64)
            } else {
                compare_chars(la, lb)
            }
        },
    };
    if desc {
        -o
    } else {
        o
    }
}

/// Sorting by type puts folders first, then stills, then videos; sorting
/// descending keeps folders first and puts videos before stills.
pub proof fn law_type_sort_groups(s: Seq<Entry>, orig: Seq<Entry>, desc: bool)
    requires
        stably_sorted(s, orig, SortKey::Type, desc),
    ensures
        forall|i: int, j: int|
            0 <= i < j < s.len() && (#[trigger] s[j] is Folder) ==> (#[trigger] s[i] is Folder),
        !desc ==> forall|i: int, j: int|
            0 <= i < j < s.len() ==> !((#[trigger] s[i] matches Entry::Media(a) && a.kind
                == MediaKind::Video) && (#[trigger] s[j] matches Entry::Media(b) && b.kind
                == MediaKind::Image)),
        desc ==> forall|i: int, j: int|
            0 <= i < j < s.len() ==> !((#[trigger] s[i] matches Entry::Media(a) && a.kind
                == MediaKind::Image) && (#[trigger] s[j] matches Entry::Media(b) && b.kind
                == MediaKind::Video)),
{
    let p = choose|p: Seq<int>|
        {
            &&& is_permutation(p, orig.len())
            &&& s.len() == orig.len()
            &&& forall|i: int| 0 <= i < s.len() ==> #[trigger] s[i] == orig[p[i]]
            &&& forall|i: int, j: int|
                0 <= i < j < s.len() ==> order(#[trigger] s[i], #[trigger] s[j], SortKey::Type, desc) <= 0
            &&& forall|i: int, j: int|
                0 <= i < j < s.len() && order(#[trigger] s[i], #[trigger] s[j], SortKey::Type, desc) == 0
                    ==> p[i] < p[j]
        };
    assert forall|i: int, j: int|
        0 <= i < j < s.len() && (#[trigger] s[j] is Folder) implies (#[trigger] s[i] is Folder) by {
        assert(order(s[i], s[j], SortKey::Type, desc) <= 0);
    }
    assert forall|i: int, j: int| 0 <= i < j < s.len() implies !((#[trigger] s[i] matches Entry::Media(
        a,
    ) && a.kind == MediaKind::Video) && (#[trigger] s[j] matches Entry::Media(b) && b.kind
        == MediaKind::Image)) || desc by {
        assert(order(s[i], s[j], SortKey::Type, desc) <= 0);
    }
    assert forall|i: int, j: int| 0 <= i < j < s.len() implies !((#[trigger] s[i] matches Entry::Media(
        a,
    ) && a.kind == MediaKind::Image) && (#[trigger] s[j] matches Entry::Media(b) && b.kind
        == MediaKind::Video)) || !desc by {
        assert(order(s[i], s[j], SortKey::Type, desc) <= 0);
    }
}

/// Puts the listing in order, stably: folders first, then by `key`,
/// reversed when `desc`.
pub fn sort_entries(entries: &mut Vec<Entry>, key: SortKey, desc: bool)
    ensures
        stably_sorted(final(entries)@, old(entries)@, key, desc),
{
    let ghost orig = entries@;
    let mut input: Vec<Entry> = Vec::new();
    std::mem::swap(&mut input, entries);
    let n = input.len();
    let mut out: Vec<Entry> = Vec::new();
    let mut keys: Vec<Vec<char>> = Vec::new();
    let ghost mut p: Seq<int> = Seq::empty();
    let mut k: usize = 0;
    while k < n
        invariant
            n == orig.len(),
            k <= n,
            input@ == orig.subrange(k as int, n as int),
            out@.len() == k,
            keys@.len() == k,
            p.len() == k,
            forall|i: int| 0 <= i < k ==> #[trigger] keys@[i]@ == lowercase(out@[i].spec_name()),
            forall|i: int| 0 <= i < k ==> 0 <= #[trigger] p[i] < k,
            forall|i: int, j: int| 0 <= i < j < k ==> p[i] != p[j],
            forall|i: int| 0 <= i < k ==> #[trigger] out@[i] == orig[p[i]],
            forall|i: int, j: int|
                0 <= i < j < k ==> order(#[trigger] out@[i], #[trigger] out@[j], key, desc) <= 0,
            forall|i: int, j: int|
                0 <= i < j < k && order(#[trigger] out@[i], #[trigger] out@[j], key, desc) == 0
                    ==> p[i] < p[j],
        decreases n - k,
    {
        let e = input.remove(0);
        assert(e == orig[k as int]);
        let lower = chars_of(to_lowercase(e.name().as_str()).as_str());
        let mut pos: usize = 0;
        while pos < k && entry_order(&out[pos], &keys[pos], &e, &lower, key, desc) <= 0
            invariant
                pos <= k,
                out@.len() == k,
                keys@.len() == k,
                lower@ == lowercase(e.spec_name()),
                forall|i: int| 0 <= i < k ==> #[trigger] keys@[i]@ == lowercase(out@[i].spec_name()),
                forall|i: int| 0 <= i < pos ==> order(#[trigger] out@[i], e, key, desc) <= 0,
            decreases k - pos,
        {
            pos = pos + 1;
        }
        proof {
            if pos < k {
                let first = out@[pos as int];
                assert(order(first, e, key, desc) > 0);
                lemma_order_props(first, e, e, key, desc);
                assert forall|j: int| pos <= j < k implies order(e, #[trigger] out@[j], key, desc)
                    < 0 by {
                    if j > pos {
                        assert(order(first, out@[j], key, desc) <= 0);
                        lemma_order_props(first, out@[j], e, key, desc);
                        lemma_order_props(out@[j], e, e, key, desc);
                    }
                }
            }
        }
        let ghost old_out = out@;
        let ghost old_keys = keys@;
        let ghost old_p = p;
        out.insert(pos, e);
        keys.insert(pos, lower);
        proof {
            p = old_p.insert(pos as int, k as int);
            assert forall|i: int| 0 <= i < k + 1 implies #[trigger] keys@[i]@ == lowercase(
                out@[i].spec_name(),
            ) by {
                if i < pos {
                    assert(keys@[i] == old_keys[i] && out@[i] == old_out[i]);
                } else if i > pos {
                    assert(keys@[i] == old_keys[i - 1] && out@[i] == old_out[i - 1]);
                }
            }
            assert forall|i: int| 0 <= i < k + 1 implies #[trigger] out@[i] == orig[p[i]] by {
                if i < pos {
                    assert(out@[i] == old_out[i] && p[i] == old_p[i]);
                } else if i > pos {
                    assert(out@[i] == old_out[i - 1] && p[i] == old_p[i - 1]);
                }
            }
            assert forall|i: int| 0 <= i < k + 1 implies 0 <= #[trigger] p[i] < k + 1 by {
                if i < pos {
                    assert(p[i] == old_p[i]);
                } else if i > pos {
                    assert(p[i] == old_p[i - 1]);
                }
            }
            assert forall|i: int, j: int| 0 <= i < j < k + 1 implies p[i] != p[j] by {
                if i < pos {
                    assert(p[i] == old_p[i]);
                } else if i > pos {
                    assert(p[i] == old_p[i - 1]);
                }
                if j < pos {
                    assert(p[j] == old_p[j]);
                } else if j > pos {
                    assert(p[j] == old_p[j - 1]);
                }
            }
            assert forall|i: int, j: int| 0 <= i < j < k + 1 implies order(
                #[trigger] out@[i],
                #[trigger] out@[j],
                key,
                desc,
            ) <= 0 && (order(out@[i], out@[j], key, desc) == 0 ==> p[i] < p[j]) by {
                if i < pos {
                    assert(out@[i] == old_out[i] && p[i] == old_p[i]);
                } else if i > pos {
                    assert(out@[i] == old_out[i - 1] && p[i] == old_p[i - 1]);
                }
                if j < pos {
                    assert(out@[j] == old_out[j] && p[j] == old_p[j]);
                } else if j > pos {
                    assert(out@[j] == old_out[j - 1] && p[j] == old_p[j - 1]);
                }
                if i == pos {
                    assert(order(e, old_out[j - 1], key, desc) < 0);
                }
            }
            assert(input@ =~= orig.subrange(k + 1, n as int));
        }
        k = k + 1;
    }
    *entries = out;
    assert(is_permutation(p, orig.len()));
}

} // verus!
