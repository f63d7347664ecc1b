//! Preferences: recent and saved libraries, and the folders/flat switch,
//! with the text format they are stored in.
//!
//! ```text
//! [flags]
//! flat=0
//!
//! [recents]
//! /Users/me/Pictures
//!
//! [saved]
//! /Users/me/Pictures
//! ```

use vstd::prelude::*;
use vstd::string::*;

use crate::path::{canonical, components, law_path_round_trip, law_read_back_is_same_path, render, LibPath};
use crate::text::{
    ended_lines, is_ws, lemma_ended_concat, lemma_split_ended, lemma_split_step, same_text,
    split_on, trim, trim_back, trim_front, trim_str,
};

verus! {

/// How many recent libraries the file keeps.
pub const MAX_RECENTS: usize = 12;

pub struct Prefs {
    pub recents: Vec<LibPath>,
    pub saved: Vec<LibPath>,
    pub flat_mode: bool,
}

pub open spec fn paths_view(v: Seq<LibPath>) -> Seq<Seq<Seq<char>>> {
    v.map_values(|p: LibPath| p@)
}

/// Recent libraries, saved libraries, flat mode.
pub type PrefsView = (Seq<Seq<Seq<char>>>, Seq<Seq<Seq<char>>>, bool);

impl View for Prefs {
    type V = PrefsView;

    open spec fn view(&self) -> PrefsView {
        (paths_view(self.recents@), paths_view(self.saved@), self.flat_mode)
    }
}

pub open spec fn empty_prefs() -> PrefsView {
    (Seq::empty(), Seq::empty(), false)
}

/// `s` without any entry equal to `x`, the rest in order.
pub open spec fn without(s: Seq<Seq<Seq<char>>>, x: Seq<Seq<char>>) -> Seq<Seq<Seq<char>>> {
    s.filter(differs(x))
}

pub open spec fn differs(x: Seq<Seq<char>>) -> spec_fn(Seq<Seq<char>>) -> bool {
    |p: Seq<Seq<char>>| p != x
}

/// At most the first `n` entries of `s`.
pub open spec fn first_n<A>(s: Seq<A>, n: nat) -> Seq<A> {
    if s.len() > n {
        s.take(n as int)
    } else {
        s
    }
}

/// The recent list after opening `folder`: it goes first, any earlier
/// mention of it leaves, and the list keeps twelve entries.
pub open spec fn touched(recents: Seq<Seq<Seq<char>>>, folder: Seq<Seq<char>>) -> Seq<Seq<Seq<char>>> {
    first_n(seq![folder] + without(recents, folder), MAX_RECENTS as nat)
}

/// The saved list after toggling `folder`: removed when saved, otherwise
/// added first.
pub open spec fn toggled(saved: Seq<Seq<Seq<char>>>, folder: Seq<Seq<char>>) -> Seq<Seq<Seq<char>>> {
    if saved.contains(folder) {
        without(saved, folder)
    } else {
        seq![folder] + saved
    }
}

/// Paths one per line, each line ended by a newline.
pub open spec fn path_lines(ps: Seq<Seq<Seq<char>>>) -> Seq<char>
    decreases ps.len(),
{
    if ps.len() == 0 {
        Seq::empty()
    } else {
        path_lines(ps.drop_last()) + render(ps.last()) + seq!['\n']
    }
}

/// The stored form: flags, then at most twelve recent libraries, then the
/// saved ones.
pub open spec fn prefs_text(p: PrefsView) -> Seq<char> {
    "[flags]\n"@ + (if p.2 {
        "flat=1\n"@
    } else {
        "flat=0\n"@
    }) + "\n[recents]\n"@ + path_lines(first_n(p.0, MAX_RECENTS as nat)) + "\n[saved]\n"@
        + path_lines(p.1)
}

/// A section line: `[` first and `]` last.
pub open spec fn header(l: Seq<char>) -> bool {
    l.len() > 0 && l[0] == '[' && l.last() == ']'
}

/// One line read in the current section; blank lines are skipped and
/// unknown lines ignored.
pub open spec fn read_line(st: (PrefsView, Seq<char>), raw: Seq<char>) -> (PrefsView, Seq<char>) {
    let l = trim(raw);
    let p = st.0;
    let sec = st.1;
    if l.len() == 0 {
        st
    } else if header(l) {
        (p, l)
    } else if sec == "[recents]"@ {
        ((p.0.push(components(l)), p.1, p.2), sec)
    } else if sec == "[saved]"@ {
        ((p.0, p.1.push(components(l)), p.2), sec)
    } else if sec == "[flags]"@ && l == "flat=1"@ {
        ((p.0, p.1, true), sec)
    } else if sec == "[flags]"@ && l == "flat=0"@ {
        ((p.0, p.1, false), sec)
    } else {
        st
    }
}

/// The state after reading the lines `ls` from `st`.
pub open spec fn read_from(st: (PrefsView, Seq<char>), ls: Seq<Seq<char>>) -> (PrefsView, Seq<char>)
    decreases ls.len(),
{
    if ls.len() == 0 {
        st
    } else {
        read_line(read_from(st, ls.drop_last()), ls.last())
    }
}

/// Lines read from the start: no preferences and no section yet.
pub open spec fn read_lines(ls: Seq<Seq<char>>) -> (PrefsView, Seq<char>) {
    read_from((empty_prefs(), Seq::empty()), ls)
}

/// The preferences a stored text holds, read line by line.
pub open spec fn parsed(text: Seq<char>) -> PrefsView {
    read_lines(split_on(text, '\n')).0
}

fn without_path(v: &Vec<LibPath>, x: &LibPath) -> (r: Vec<LibPath>)
    ensures
        paths_view(r@) == without(paths_view(v@), x@),
{
    let mut out: Vec<LibPath> = Vec::new();
    let mut i: usize = 0;
    assert(paths_view(v@).take(0) =~= Seq::<Seq<Seq<char>>>::empty());
    assert(without(Seq::<Seq<Seq<char>>>::empty(), x@) =~= Seq::<Seq<Seq<char>>>::empty()) by {
        reveal(Seq::filter);
    }
    while i < v.len()
        invariant
            i <= v.len(),
            paths_view(out@) == without(paths_view(v@).take(i as int), x@),
        decreases v.len() - i,
    {
        let ghost before = paths_view(v@).take(i as int);
        assert(paths_view(v@).take(i + 1) =~= before.push(v@[i as int]@));
        proof {
            before.lemma_filter_push(v@[i as int]@, differs(x@));
        }
        if !v[i].same(x) {
            out.push(v[i].copied());
            assert(paths_view(out@) =~= without(paths_view(v@).take(i + 1), x@));
        }
        i = i + 1;
    }
    assert(paths_view(v@).take(v.len() as int) =~= paths_view(v@));
    out
}

proof fn lemma_without_absent(s: Seq<Seq<Seq<char>>>, x: Seq<Seq<char>>)
    requires
        !s.contains(x),
    ensures
        without(s, x) == s,
    decreases s.len(),
{
    reveal(Seq::filter);
    if s.len() > 0 {
        assert(!s.drop_last().contains(x)) by {
            if s.drop_last().contains(x) {
                let k = choose|k: int| 0 <= k < s.drop_last().len() && s.drop_last()[k] == x;
                assert(s[k] == x);
            }
        }
        lemma_without_absent(s.drop_last(), x);
        assert(s.last() != x) by {
            if s.last() == x {
                assert(s[s.len() - 1] == x);
            }
        }
        assert(s.drop_last().push(s.last()) =~= s);
    }
}

proof fn lemma_without_lacks(s: Seq<Seq<Seq<char>>>, x: Seq<Seq<char>>)
    ensures
        !without(s, x).contains(x),
{
    let w = without(s, x);
    assert forall|i: int| 0 <= i < w.len() implies w[i] != x by {
        s.lemma_filter_pred(differs(x), i);
    }
}

/// After opening a library, it is the first of at most twelve recent ones
/// and is not listed again after that.
pub proof fn law_touch_recent(recents: Seq<Seq<Seq<char>>>, folder: Seq<Seq<char>>)
    ensures
        touched(recents, folder).len() >= 1,
        touched(recents, folder).len() <= MAX_RECENTS,
        touched(recents, folder)[0] == folder,
        forall|i: int| 1 <= i < touched(recents, folder).len() ==> #[trigger] touched(recents, folder)[i] != folder,
{
    let w = without(recents, folder);
    lemma_without_lacks(recents, folder);
    let full = seq![folder] + w;
    assert forall|i: int| 1 <= i < touched(recents, folder).len() implies #[trigger] touched(
        recents,
        folder,
    )[i] != folder by {
        assert(touched(recents, folder)[i] == full[i]);
        assert(full[i] == w[i - 1]);
    }
}

/// Toggling a folder flips whether it is saved.
pub proof fn law_toggle_flips(saved: Seq<Seq<Seq<char>>>, folder: Seq<Seq<char>>)
    ensures
        toggled(saved, folder).contains(folder) == !saved.contains(folder),
{
    if saved.contains(folder) {
        lemma_without_lacks(saved, folder);
    } else {
        assert((seq![folder] + saved)[0] == folder);
    }
}

/// Toggling twice a folder that was not saved gives the saved list back.
pub proof fn law_toggle_twice(saved: Seq<Seq<Seq<char>>>, folder: Seq<Seq<char>>)
    requires
        !saved.contains(folder),
    ensures
        toggled(toggled(saved, folder), folder) == saved,
{
    let once = seq![folder] + saved;
    assert(once[0] == folder);
    assert(toggled(saved, folder) == once);
    Seq::filter_distributes_over_add(seq![folder], saved, differs(folder));
    lemma_without_absent(saved, folder);
    assert(without(seq![folder], folder) =~= Seq::<Seq<Seq<char>>>::empty()) by {
        reveal(Seq::filter);
        let e = Seq::<Seq<Seq<char>>>::empty();
        assert(seq![folder].drop_last() =~= e);
        assert(e.filter(differs(folder)) =~= e);
        assert(!differs(folder)(folder));
        assert(seq![folder].last() == folder);
    }
    assert(without(once, folder) =~= saved);
}

/// A path whose text stands on a line of its own in the stored form: not
/// empty, without a newline or surrounding whitespace, and not in the shape
/// of a section line.
pub open spec fn line_safe(x: Seq<Seq<char>>) -> bool {
    let l = render(x);
    &&& l.len() > 0
    &&& !l.contains('\n')
    &&& trim(l) == l
    &&& !header(l)
}

/// The path that the text of `x` reads back as. Paths compare by their
/// components, so `x` and its reading are the same path to the file system.
pub open spec fn read_back(x: Seq<Seq<char>>) -> Seq<Seq<char>> {
    components(render(x))
}

pub open spec fn read_back_all(xs: Seq<Seq<Seq<char>>>) -> Seq<Seq<Seq<char>>> {
    xs.map_values(|x: Seq<Seq<char>>| read_back(x))
}

/// A path that stands on a line of its own and reads back exactly as
/// written: line-safe and canonical (as every path parsed from text is).
pub open spec fn storable(x: Seq<Seq<char>>) -> bool {
    &&& canonical(x)
    &&& line_safe(x)
}

pub open spec fn rendered(ps: Seq<Seq<Seq<char>>>) -> Seq<Seq<char>> {
    ps.map_values(|x: Seq<Seq<char>>| render(x))
}

pub open spec fn flag_line(flat: bool) -> Seq<char> {
    if flat {
        "flat=1"@
    } else {
        "flat=0"@
    }
}

/// The lines of the stored form, without their newlines.
pub open spec fn stored_lines(p: PrefsView) -> Seq<Seq<char>> {
    seq!["[flags]"@, flag_line(p.2), Seq::<char>::empty(), "[recents]"@] + rendered(
        first_n(p.0, MAX_RECENTS as nat),
    ) + seq![Seq::<char>::empty(), "[saved]"@] + rendered(p.1)
}

proof fn lemma_read_concat(st: (PrefsView, Seq<char>), a: Seq<Seq<char>>, b: Seq<Seq<char>>)
    ensures
        read_from(st, a + b) == read_from(read_from(st, a), b),
    decreases b.len(),
{
    if b.len() == 0 {
        assert(a + b =~= a);
    } else {
        assert((a + b).drop_last() =~= a + b.drop_last());
        lemma_read_concat(st, a, b.drop_last());
    }
}

proof fn lemma_path_lines(ps: Seq<Seq<Seq<char>>>)
    ensures
        path_lines(ps) == ended_lines(rendered(ps), '\n'),
    decreases ps.len(),
{
    if ps.len() > 0 {
        lemma_path_lines(ps.drop_last());
        assert(rendered(ps).drop_last() =~= rendered(ps.drop_last()));
    }
}

proof fn lemma_plain_text(l: Seq<char>)
    requires
        l.len() > 0,
        !is_ws(l[0]),
        !is_ws(l.last()),
    ensures
        trim(l) == l,
{
}

proof fn lemma_literals()
    ensures
        "[flags]"@ =~= seq!['[', 'f', 'l', 'a', 'g', 's', ']'],
        "[recents]"@ =~= seq!['[', 'r', 'e', 'c', 'e', 'n', 't', 's', ']'],
        "[saved]"@ =~= seq!['[', 's', 'a', 'v', 'e', 'd', ']'],
        "flat=1"@ =~= seq!['f', 'l', 'a', 't', '=', '1'],
        "flat=0"@ =~= seq!['f', 'l', 'a', 't', '=', '0'],
        "[flags]\n"@ =~= "[flags]"@.push('\n'),
        "flat=1\n"@ =~= "flat=1"@.push('\n'),
        "flat=0\n"@ =~= "flat=0"@.push('\n'),
        "\n[recents]\n"@ =~= seq!['\n'] + "[recents]"@.push('\n'),
        "\n[saved]\n"@ =~= seq!['\n'] + "[saved]"@.push('\n'),
{
    reveal_strlit("[flags]");
    reveal_strlit("[recents]");
    reveal_strlit("[saved]");
    reveal_strlit("flat=1");
    reveal_strlit("flat=0");
    reveal_strlit("[flags]\n");
    reveal_strlit("flat=1\n");
    reveal_strlit("flat=0\n");
    reveal_strlit("\n[recents]\n");
    reveal_strlit("\n[saved]\n");
}

/// The stored form is its lines, each ended by a newline.
proof fn lemma_text_lines(p: PrefsView)
    ensures
        prefs_text(p) == ended_lines(stored_lines(p), '\n'),
{
    lemma_literals();
    let r = rendered(first_n(p.0, MAX_RECENTS as nat));
    let s = rendered(p.1);
    let e = Seq::<char>::empty();
    let head = seq!["[flags]"@, flag_line(p.2), e, "[recents]"@];
    let mid = seq![e, "[saved]"@];
    lemma_path_lines(first_n(p.0, MAX_RECENTS as nat));
    lemma_path_lines(p.1);
    lemma_ended_concat(head, r, '\n');
    lemma_ended_concat(head + r, mid, '\n');
    lemma_ended_concat(head + r + mid, s, '\n');
    assert(head.drop_last().drop_last().drop_last().drop_last() =~= Seq::<Seq<char>>::empty());
    assert(ended_lines(head, '\n') =~= "[flags]\n"@ + (if p.2 {
        "flat=1\n"@
    } else {
        "flat=0\n"@
    }) + "\n[recents]\n"@) by {
        let h1 = seq!["[flags]"@];
        let h2 = seq!["[flags]"@, flag_line(p.2)];
        let h3 = seq!["[flags]"@, flag_line(p.2), e];
        assert(head.drop_last() =~= h3);
        assert(h3.drop_last() =~= h2);
        assert(h2.drop_last() =~= h1);
        assert(h1.drop_last() =~= Seq::<Seq<char>>::empty());
        assert(ended_lines(Seq::<Seq<char>>::empty(), '\n') == e);
        assert(ended_lines(h1, '\n') =~= "[flags]"@.push('\n'));
        assert(ended_lines(h2, '\n') =~= "[flags]"@.push('\n') + flag_line(p.2).push('\n'));
        assert(ended_lines(h3, '\n') =~= "[flags]"@.push('\n') + flag_line(p.2).push('\n') + seq!['\n']);
    }
    assert(ended_lines(mid, '\n') =~= "\n[saved]\n"@) by {
        assert(mid.drop_last() =~= seq![e]);
        assert(mid.drop_last().drop_last() =~= Seq::<Seq<char>>::empty());
        assert(ended_lines(Seq::<Seq<char>>::empty(), '\n') == e);
        assert(ended_lines(seq![e], '\n') =~= seq!['\n']);
    }
}

/// Reading path lines in a list section appends what they read back as to
/// that list.
proof fn lemma_read_paths(st: PrefsView, sec: Seq<char>, xs: Seq<Seq<Seq<char>>>)
    requires
        sec == "[recents]"@ || sec == "[saved]"@,
        forall|i: int| 0 <= i < xs.len() ==> line_safe(#[trigger] xs[i]),
    ensures
        sec == "[recents]"@ ==> read_from((st, sec), rendered(xs)) == ((st.0 + read_back_all(xs), st.1, st.2), sec),
        sec == "[saved]"@ ==> read_from((st, sec), rendered(xs)) == ((st.0, st.1 + read_back_all(xs), st.2), sec),
    decreases xs.len(),
{
    lemma_literals();
    assert("[recents]"@ != "[saved]"@) by {
        assert("[recents]"@.len() != "[saved]"@.len());
    }
    if xs.len() == 0 {
        assert(rendered(xs) =~= Seq::<Seq<char>>::empty());
        assert(read_back_all(xs) =~= Seq::<Seq<Seq<char>>>::empty());
        assert(st.0 + read_back_all(xs) =~= st.0);
        assert(st.1 + read_back_all(xs) =~= st.1);
    } else {
        let prev = xs.drop_last();
        let x = xs.last();
        assert forall|i: int| 0 <= i < prev.len() implies line_safe(#[trigger] prev[i]) by {
            assert(prev[i] == xs[i]);
        }
        lemma_read_paths(st, sec, prev);
        assert(rendered(xs).drop_last() =~= rendered(prev));
        assert(xs[xs.len() - 1] == x);
        assert(line_safe(x));
        assert(rendered(xs).last() == render(x));
        assert(read_back_all(xs) =~= read_back_all(prev).push(read_back(x)));
        assert((st.0 + read_back_all(prev)).push(read_back(x)) =~= st.0 + read_back_all(xs));
        assert((st.1 + read_back_all(prev)).push(read_back(x)) =~= st.1 + read_back_all(xs));
    }
}

/// Reading back the stored form of preferences gives the same paths, each
/// as its text reads back (equal to it as paths compare), the recent list
/// cut to its first twelve entries, and the same mode, when every path
/// written stands on a line of its own.
pub proof fn law_prefs_reads_back(p: PrefsView)
    requires
        forall|i: int| 0 <= i < first_n(p.0, MAX_RECENTS as nat).len() ==> line_safe(
            #[trigger] first_n(p.0, MAX_RECENTS as nat)[i],
        ),
        forall|i: int| 0 <= i < p.1.len() ==> line_safe(#[trigger] p.1[i]),
    ensures
        parsed(prefs_text(p)) == (read_back_all(first_n(p.0, MAX_RECENTS as nat)), read_back_all(p.1), p.2),
{
    lemma_literals();
    let rs = first_n(p.0, MAX_RECENTS as nat);
    let r = rendered(rs);
    let s = rendered(p.1);
    let e = Seq::<char>::empty();
    let head = seq!["[flags]"@, flag_line(p.2), e, "[recents]"@];
    let mid = seq![e, "[saved]"@];
    let ls = stored_lines(p);
    lemma_text_lines(p);
    assert forall|i: int| 0 <= i < ls.len() implies !(#[trigger] ls[i]).contains('\n') by {
        let hr = head + r;
        let hrm = hr + mid;
        if i < 4 {
            assert(ls[i] == head[i]);
            if i == 0 || i == 3 || i == 1 {
                if ls[i].contains('\n') {
                    let k = choose|k: int| 0 <= k < ls[i].len() && ls[i][k] == '\n';
                    assert(ls[i][k] != '\n');
                }
            }
        } else if i < 4 + r.len() {
            assert(ls[i] == r[i - 4]);
            assert(line_safe(rs[i - 4]));
        } else if i < 6 + r.len() {
            assert(ls[i] == mid[i - 4 - r.len()]);
            if ls[i].contains('\n') {
                let k = choose|k: int| 0 <= k < ls[i].len() && ls[i][k] == '\n';
                assert(ls[i][k] != '\n');
            }
        } else {
            assert(ls[i] == s[i - 6 - r.len()]);
            assert(line_safe(p.1[i - 6 - r.len()]));
        }
    }
    lemma_split_ended(ls, '\n');
    assert(split_on(prefs_text(p), '\n') == ls.push(e));
    let start = (empty_prefs(), e);
    lemma_read_concat(start, head + r + mid + s, seq![e]);
    assert(ls.push(e) =~= (head + r + mid + s) + seq![e]);
    lemma_read_concat(start, head + r + mid, s);
    lemma_read_concat(start, head + r, mid);
    lemma_read_concat(start, head, r);
    // the head lines
    let st1 = read_from(start, head);
    assert(st1 == ((Seq::<Seq<Seq<char>>>::empty(), Seq::<Seq<Seq<char>>>::empty(), p.2), "[recents]"@)) by {
        let h1 = seq!["[flags]"@];
        let h2 = seq!["[flags]"@, flag_line(p.2)];
        let h3 = seq!["[flags]"@, flag_line(p.2), e];
        assert(head.drop_last() =~= h3);
        assert(h3.drop_last() =~= h2);
        assert(h2.drop_last() =~= h1);
        assert(h1.drop_last() =~= Seq::<Seq<char>>::empty());
        lemma_plain_text("[flags]"@);
        lemma_plain_text("[recents]"@);
        lemma_plain_text(flag_line(p.2));
        assert(read_from(start, Seq::<Seq<char>>::empty()) == start);
        assert(header("[flags]"@));
        assert(read_from(start, h1) == (empty_prefs(), "[flags]"@));
        assert(!header(flag_line(p.2)));
        assert("[flags]"@ != "[recents]"@) by {
            assert("[flags]"@.len() != "[recents]"@.len());
        }
        assert("[flags]"@ != "[saved]"@) by {
            assert("[flags]"@[1] != "[saved]"@[1]);
        }
        assert("flat=0"@ != "flat=1"@) by {
            assert("flat=0"@[5] != "flat=1"@[5]);
        }
        assert(read_from(start, h2) == ((empty_prefs().0, empty_prefs().1, p.2), "[flags]"@));
        assert(read_from(start, h3) == read_from(start, h2));
    }
    lemma_read_paths(st1.0, "[recents]"@, rs);
    let rb = read_back_all(rs);
    let sb = read_back_all(p.1);
    let st2 = read_from(st1, r);
    assert(Seq::<Seq<Seq<char>>>::empty() + rb =~= rb);
    assert(st2 == ((rb, Seq::<Seq<Seq<char>>>::empty(), p.2), "[recents]"@));
    let st3 = read_from(st2, mid);
    assert(st3 == ((rb, Seq::<Seq<Seq<char>>>::empty(), p.2), "[saved]"@)) by {
        assert(mid.drop_last() =~= seq![e]);
        assert(seq![e].drop_last() =~= Seq::<Seq<char>>::empty());
        assert(read_from(st2, Seq::<Seq<char>>::empty()) == st2);
        assert(trim(e) =~= e);
        assert(read_from(st2, seq![e]) == st2);
        lemma_plain_text("[saved]"@);
        assert(header("[saved]"@));
    }
    lemma_read_paths(st3.0, "[saved]"@, p.1);
    assert(Seq::<Seq<Seq<char>>>::empty() + sb =~= sb);
    let st4 = read_from(st3, s);
    assert(st4 == ((rb, sb, p.2), "[saved]"@));
    assert(seq![e].drop_last() =~= Seq::<Seq<char>>::empty());
    assert(read_from(st4, Seq::<Seq<char>>::empty()) == st4);
    assert(trim(e) =~= e);
    assert(read_from(st4, seq![e]) == st4);
    assert(read_from(start, head + r) == st2);
    assert(read_from(start, head + r + mid) == st3);
    assert(read_from(start, head + r + mid + s) == st4);
    assert(read_lines(split_on(prefs_text(p), '\n')) == st4);
}

/// `a` and `b` hold the same paths in the same order, as paths compare: by
/// the components of their text.
pub open spec fn same_paths(a: Seq<Seq<Seq<char>>>, b: Seq<Seq<Seq<char>>>) -> bool {
    &&& a.len() == b.len()
    &&& forall|i: int| 0 <= i < a.len() ==> read_back(#[trigger] a[i]) == read_back(b[i])
}

proof fn lemma_read_back_all_same(xs: Seq<Seq<Seq<char>>>)
    requires
        forall|i: int| 0 <= i < xs.len() ==> line_safe(#[trigger] xs[i]),
    ensures
        same_paths(read_back_all(xs), xs),
{
    assert forall|i: int| 0 <= i < xs.len() implies read_back(#[trigger] read_back_all(xs)[i])
        == read_back(xs[i]) by {
        assert(line_safe(xs[i]));
        law_read_back_is_same_path(xs[i]);
    }
}

/// Whatever paths were written, each on a line of its own, the preferences
/// read back hold the same paths as paths compare (the recent list cut to
/// its first twelve) and the same mode.
pub proof fn law_prefs_same_paths(p: PrefsView)
    requires
        forall|i: int| 0 <= i < first_n(p.0, MAX_RECENTS as nat).len() ==> line_safe(
            #[trigger] first_n(p.0, MAX_RECENTS as nat)[i],
        ),
        forall|i: int| 0 <= i < p.1.len() ==> line_safe(#[trigger] p.1[i]),
    ensures
        same_paths(parsed(prefs_text(p)).0, first_n(p.0, MAX_RECENTS as nat)),
        same_paths(parsed(prefs_text(p)).1, p.1),
        parsed(prefs_text(p)).2 == p.2,
{
    law_prefs_reads_back(p);
    lemma_read_back_all_same(first_n(p.0, MAX_RECENTS as nat));
    lemma_read_back_all_same(p.1);
}

/// Each canonical path reads back exactly as written.
proof fn lemma_read_back_canonical(xs: Seq<Seq<Seq<char>>>)
    requires
        forall|i: int| 0 <= i < xs.len() ==> canonical(#[trigger] xs[i]),
    ensures
        read_back_all(xs) == xs,
{
    assert forall|i: int| 0 <= i < xs.len() implies #[trigger] read_back_all(xs)[i] == xs[i] by {
        law_path_round_trip(xs[i]);
    }
    assert(read_back_all(xs) =~= xs);
}

/// Reading back the stored form of preferences gives them back exactly,
/// the recent list cut to its first twelve entries, when every path written
/// stands on a line of its own and is canonical.
pub proof fn law_prefs_round_trip(p: PrefsView)
    requires
        forall|i: int| 0 <= i < first_n(p.0, MAX_RECENTS as nat).len() ==> storable(
            #[trigger] first_n(p.0, MAX_RECENTS as nat)[i],
        ),
        forall|i: int| 0 <= i < p.1.len() ==> storable(#[trigger] p.1[i]),
    ensures
        parsed(prefs_text(p)) == (first_n(p.0, MAX_RECENTS as nat), p.1, p.2),
{
    let rs = first_n(p.0, MAX_RECENTS as nat);
    assert forall|i: int| 0 <= i < rs.len() implies line_safe(#[trigger] rs[i]) by {
        assert(storable(rs[i]));
    }
    assert forall|i: int| 0 <= i < p.1.len() implies line_safe(#[trigger] p.1[i]) by {
        assert(storable(p.1[i]));
    }
    law_prefs_reads_back(p);
    assert forall|i: int| 0 <= i < rs.len() implies canonical(#[trigger] rs[i]) by {
        assert(storable(rs[i]));
    }
    assert forall|i: int| 0 <= i < p.1.len() implies canonical(#[trigger] p.1[i]) by {
        assert(storable(p.1[i]));
    }
    lemma_read_back_canonical(rs);
    lemma_read_back_canonical(p.1);
}

impl Prefs {
    pub fn new() -> (r: Prefs)
        ensures
            r@ == empty_prefs(),
    {
        let r = Prefs { recents: Vec::new(), saved: Vec::new(), flat_mode: false };
        assert(r@.0 =~= Seq::<Seq<Seq<char>>>::empty());
        assert(r@.1 =~= Seq::<Seq<Seq<char>>>::empty());
        r
    }


    fn append_lines(out: &mut String, ps: &Vec<LibPath>, limit: usize)
        ensures
            final(out)@ == old(out)@ + path_lines(first_n(paths_view(ps@), limit as nat)),
    {
        let n = if ps.len() < limit {
            ps.len()
        } else {
            limit
        };
        let ghost lead = out@;
        let ghost all = paths_view(ps@);
        let mut i: usize = 0;
        assert(all.take(0) =~= Seq::<Seq<Seq<char>>>::empty());
        while i < n
            invariant
                n <= ps.len(),
                all == paths_view(ps@),
                i <= n,
                out@ == lead + path_lines(all.take(i as int)),
            decreases n - i,
        {
            assert(all.take(i + 1).drop_last() =~= all.take(i as int));
            out.append(ps[i].to_text().as_str());
            out.append("\n");
            proof {
                reveal_strlit("\n");
                assert("\n"@ =~= seq!['\n']);
            }
            assert(out@ =~= lead + path_lines(all.take(i + 1)));
            i = i + 1;
        }
        assert(all.take(n as int) =~= first_n(all, limit as nat));
    }

    /// The stored form of these preferences.
    pub fn to_text(&self) -> (r: String)
        ensures
            r@ == prefs_text(self@),
    {
        let mut out = String::new();
        out.append("[flags]\n");
        if self.flat_mode {
            out.append("flat=1\n");
        } else {
            out.append("flat=0\n");
        }
        out.append("\n[recents]\n");
        Self::append_lines(&mut out, &self.recents, MAX_RECENTS);
        out.append("\n[saved]\n");
        Self::append_lines(&mut out, &self.saved, self.saved.len());
        assert(first_n(paths_view(self.saved@), self.saved.len() as nat) =~= paths_view(self.saved@));
        out
    }

    fn read_one(&mut self, section: &mut String, raw: &str)
        ensures
            (final(self)@, final(section)@) == read_line((old(self)@, old(section)@), raw@),
    {
        let l = trim_str(raw);
        let t = l.as_str();
        let n = t.unicode_len();
        if n == 0 {
            return;
        }
        if t.get_char(0) == '[' && t.get_char(n - 1) == ']' {
            *section = l;
            return;
        }
        if same_text(section.as_str(), "[recents]") {
            let ghost before = self@;
            self.recents.push(LibPath::parse(t));
            assert(self@.0 =~= before.0.push(components(t@)));
        } else if same_text(section.as_str(), "[saved]") {
            let ghost before = self@;
            self.saved.push(LibPath::parse(t));
            assert(self@.1 =~= before.1.push(components(t@)));
        } else if same_text(section.as_str(), "[flags]") && same_text(t, "flat=1") {
            self.flat_mode = true;
        } else if same_text(section.as_str(), "[flags]") && same_text(t, "flat=0") {
            self.flat_mode = false;
        }
    }

    /// The preferences a stored text holds.
    pub fn parse(text: &str) -> (r: Prefs)
        ensures
            r@ == parsed(text@),
    {
        let mut prefs = Prefs::new();
        let mut section = String::new();
        let n = text.unicode_len();
        let mut start: usize = 0;
        let mut i: usize = 0;
        let ghost mut done: Seq<Seq<char>> = Seq::empty();
        assert(text@.subrange(0, 0) =~= Seq::<char>::empty());
        assert(split_on(Seq::<char>::empty(), '\n') =~= done.push(text@.subrange(0, 0)));
        assert(section@ =~= Seq::<char>::empty());
        while i < n
            invariant
                n == text@.len(),
                start <= i <= n,
                split_on(text@.subrange(0, i as int), '\n') == done.push(
                    text@.subrange(start as int, i as int),
                ),
                (prefs@, section@) == read_lines(done),
            decreases n - i,
        {
            proof {
                lemma_split_step(text@, '\n', start as int, i as int, done);
            }
            if text.get_char(i) == '\n' {
                let line = text.substring_char(start, i);
                prefs.read_one(&mut section, line);
                proof {
                    assert(done.push(line@).drop_last() =~= done);
                    done = done.push(line@);
                }
                start = i + 1;
                assert(text@.subrange(start as int, i + 1) =~= Seq::<char>::empty());
            }
            i = i + 1;
        }
        assert(text@.subrange(0, n as int) =~= text@);
        let last = text.substring_char(start, n);
        prefs.read_one(&mut section, last);
        assert(done.push(last@).drop_last() =~= done);
        prefs
    }

    /// The library to open at start: the folder given on the command line,
    /// else the most recent library, else `fallback`.
    pub fn start_folder(&self, arg: Option<LibPath>, fallback: LibPath) -> (r: LibPath)
        ensures
            r@ == (match arg {
                Some(a) => a@,
                None => if self@.0.len() > 0 {
                    self@.0[0]
                } else {
                    fallback@
                },
            }),
    {
        match arg {
            Some(a) => a,
            None => if self.recents.len() > 0 {
                self.recents[0].copied()
            } else {
                fallback
            },
        }
    }

    /// The preferences file inside the application's data folder.
    pub fn path(base: &LibPath) -> (r: LibPath)
        ensures
            r@ == base@.push("prefs.txt"@),
    {
        base.join("prefs.txt")
    }

    /// Puts `folder` first among the recent libraries; the caller saves.
    pub fn touch_recent(&mut self, folder: &LibPath)
        ensures
            final(self)@ == (touched(old(self)@.0, folder@), old(self)@.1, old(self)@.2),
    {
        let rest = without_path(&self.recents, folder);
        let mut recents: Vec<LibPath> = Vec::new();
        recents.push(folder.copied());
        let mut i: usize = 0;
        while i < rest.len() && recents.len() < MAX_RECENTS
            invariant
                i <= rest.len(),
                recents@.len() == i + 1,
                recents@.len() <= MAX_RECENTS,
                paths_view(recents@) == seq![folder@] + paths_view(rest@).take(i as int),
            decreases rest.len() - i,
        {
            let ghost prev = recents@;
            let c = rest[i].copied();
            recents.push(c);
            assert(recents@ == prev.push(c));
            assert forall|k: int| 0 <= k < recents@.len() implies #[trigger] paths_view(recents@)[k] == (
            seq![folder@] + paths_view(rest@).take(i + 1))[k] by {
                if k < prev.len() {
                    assert(paths_view(prev)[k] == (seq![folder@] + paths_view(rest@).take(i as int))[k]);
                }
            }
            assert(paths_view(recents@) =~= seq![folder@] + paths_view(rest@).take(i + 1));
            i = i + 1;
        }
        proof {
            let full = seq![folder@] + paths_view(rest@);
            if i == rest.len() {
                assert(paths_view(rest@).take(i as int) =~= paths_view(rest@));
                assert(paths_view(recents@) =~= first_n(full, MAX_RECENTS as nat));
            } else {
                assert(recents@.len() == 12);
                assert(full.len() > 12);
                assert(paths_view(rest@).take(i as int) =~= paths_view(rest@).take(11));
                assert(paths_view(recents@) =~= full.take(12));
            }
        }
        self.recents = recents;
    }

    pub fn is_saved(&self, folder: &LibPath) -> (r: bool)
        ensures
            r == self@.1.contains(folder@),
    {
        let mut i: usize = 0;
        while i < self.saved.len()
            invariant
                i <= self.saved.len(),
                forall|k: int| 0 <= k < i ==> #[trigger] self@.1[k] != folder@,
            decreases self.saved.len() - i,
        {
            if self.saved[i].same(folder) {
                assert(self@.1[i as int] == folder@);
                return true;
            }
            i = i + 1;
        }
        false
    }

    /// Saves `folder`, or forgets it when it was saved; the caller saves the
    /// file.
    pub fn toggle_saved(&mut self, folder: &LibPath)
        ensures
            final(self)@ == (old(self)@.0, toggled(old(self)@.1, folder@), old(self)@.2),
    {
        if self.is_saved(folder) {
            self.saved = without_path(&self.saved, folder);
        } else {
            self.saved.insert(0, folder.copied());
            assert(paths_view(self.saved@) =~= seq![folder@] + paths_view(old(self).saved@));
        }
    }
}

} // verus!
