//! Paths as sequences of components, the way `std::path::Path` compares,
//! joins and splits them: `/` stands for the root directory, `.` for the
//! current directory, `..` for the parent directory, and any other part is
//! a normal name.

use vstd::prelude::*;
use vstd::string::*;

use crate::text::{
    has_char, lemma_split_concat, lemma_split_first_run, lemma_split_no_sep, lemma_split_nonempty, lemma_split_plain, lemma_split_step, same_text,
    split_on,
};

verus! {

pub open spec fn root_part() -> Seq<char> {
    seq!['/']
}

pub open spec fn cur_part() -> Seq<char> {
    seq!['.']
}

pub open spec fn up_part() -> Seq<char> {
    seq!['.', '.']
}

/// A normal component: a non-empty name without `/` that is neither `.` nor `..`.
pub open spec fn is_normal(c: Seq<char>) -> bool {
    &&& c.len() > 0
    &&& !c.contains('/')
    &&& c != cur_part()
    &&& c != up_part()
}

/// The characters of each string.
pub open spec fn texts(v: Seq<String>) -> Seq<Seq<char>> {
    v.map_values(|s: String| s@)
}

/// A path as `Path::components` yields it.
#[derive(Debug, PartialEq, Eq)]
pub struct LibPath {
    pub parts: Vec<String>,
}

impl View for LibPath {
    type V = Seq<Seq<char>>;

    open spec fn view(&self) -> Seq<Seq<char>> {
        texts(self.parts@)
    }
}

/// `Path::parent`: none for an empty path or one that ends at the root.
pub open spec fn parent_of(p: Seq<Seq<char>>) -> Option<Seq<Seq<char>>> {
    if p.len() == 0 || p.last() == root_part() {
        None
    } else {
        Some(p.drop_last())
    }
}

/// `Path::file_name`: the last component when it is a normal name.
pub open spec fn file_name_of(p: Seq<Seq<char>>) -> Option<Seq<char>> {
    if p.len() > 0 && is_normal(p.last()) {
        Some(p.last())
    } else {
        None
    }
}

/// `Path::starts_with`: `base` is a leading run of whole components of `p`.
pub open spec fn starts_with(p: Seq<Seq<char>>, base: Seq<Seq<char>>) -> bool {
    base.is_prefix_of(p)
}

/// Index of the last `.` in `s`, or -1.
pub open spec fn last_dot(s: Seq<char>) -> int
    decreases s.len(),
{
    if s.len() == 0 {
        -1
    } else if s.last() == '.' {
        s.len() - 1
    } else {
        last_dot(s.drop_last())
    }
}

pub proof fn lemma_last_dot_bounds(s: Seq<char>)
    ensures
        -1 <= last_dot(s) < s.len(),
    decreases s.len(),
{
    if s.len() > 0 && s.last() != '.' {
        lemma_last_dot_bounds(s.drop_last());
    }
}

/// `Path::file_stem` of a file name: all before the last `.`, unless that
/// `.` leads the name.
pub open spec fn stem_of(name: Seq<char>) -> Seq<char> {
    let k = last_dot(name);
    if name == up_part() || k <= 0 {
        name
    } else {
        name.subrange(0, k)
    }
}

/// `Path::extension` of a file name: all after the last `.`, unless that
/// `.` leads the name.
pub open spec fn ext_of(name: Seq<char>) -> Option<Seq<char>> {
    let k = last_dot(name);
    if name == up_part() || k <= 0 {
        None
    } else {
        Some(name.subrange(k + 1, name.len() as int))
    }
}


/// `t` cut at every `/`: the runs between separators, empty runs included.
pub open spec fn pieces(t: Seq<char>) -> Seq<Seq<char>> {
    split_on(t, '/')
}

/// Runs that stand as components: empty runs and `.` runs are dropped.
pub open spec fn kept(c: Seq<char>) -> bool {
    c.len() > 0 && c != cur_part()
}

/// `Path::components` of the text `t` on Unix: a leading `/` gives the root,
/// a leading `.` run gives the current directory, and empty and `.` runs
/// elsewhere are skipped.
pub open spec fn components(t: Seq<char>) -> Seq<Seq<char>> {
    let ps = pieces(t);
    let body = ps.filter(|c: Seq<char>| kept(c));
    if t.len() > 0 && t[0] == '/' {
        seq![root_part()] + body
    } else if ps[0] == cur_part() {
        seq![cur_part()] + body
    } else {
        body
    }
}

/// Components written one after another with `/` between them.
pub open spec fn join_slash(ps: Seq<Seq<char>>) -> Seq<char>
    decreases ps.len(),
{
    if ps.len() == 0 {
        Seq::empty()
    } else if ps.len() == 1 {
        ps[0]
    } else {
        join_slash(ps.drop_last()) + seq!['/'] + ps.last()
    }
}

/// How a path built from these components displays.
pub open spec fn render(p: Seq<Seq<char>>) -> Seq<char> {
    if p.len() > 0 && p[0] == root_part() {
        seq!['/'] + join_slash(p.drop_first())
    } else {
        join_slash(p)
    }
}

/// A component that reads back as written: kept, and without `/`.
pub open spec fn plain_part(c: Seq<char>) -> bool {
    kept(c) && !c.contains('/')
}

/// A path that reads back as written: the root or `.` followed by plain
/// components, or one or more plain components. Every non-empty path that
/// text parses to is one (`law_parsed_paths_are_canonical`).
pub open spec fn canonical(p: Seq<Seq<char>>) -> bool {
    if p.len() > 0 && (p[0] == root_part() || p[0] == cur_part()) {
        forall|i: int| 1 <= i < p.len() ==> plain_part(#[trigger] p[i])
    } else {
        p.len() > 0 && forall|i: int| 0 <= i < p.len() ==> plain_part(#[trigger] p[i])
    }
}

proof fn lemma_pieces_join(cs: Seq<Seq<char>>)
    requires
        cs.len() > 0,
        forall|i: int| 0 <= i < cs.len() ==> !(#[trigger] cs[i]).contains('/'),
    ensures
        pieces(join_slash(cs)) == cs,
    decreases cs.len(),
{
    if cs.len() == 1 {
        lemma_split_plain(cs[0], '/');
        assert(seq![cs[0]] =~= cs);
    } else {
        let prev = cs.drop_last();
        assert forall|i: int| 0 <= i < prev.len() implies !(#[trigger] prev[i]).contains('/') by {
            assert(prev[i] == cs[i]);
        }
        lemma_pieces_join(prev);
        let a = join_slash(prev) + seq!['/'];
        assert(a.drop_last() =~= join_slash(prev));
        assert(a.last() == '/');
        lemma_split_concat(a, cs.last(), '/');
        assert(cs[cs.len() - 1] == cs.last());
        lemma_split_plain(cs.last(), '/');
        assert(join_slash(cs) =~= a + cs.last());
        assert(pieces(a).drop_last() =~= prev);
        assert(prev + seq![cs.last()] =~= cs);
    }
}

proof fn lemma_join_head(cs: Seq<Seq<char>>)
    requires
        cs.len() > 0,
        cs[0].len() > 0,
    ensures
        join_slash(cs).len() > 0,
        join_slash(cs)[0] == cs[0][0],
    decreases cs.len(),
{
    if cs.len() > 1 {
        let prev = cs.drop_last();
        assert(prev[0] == cs[0]);
        lemma_join_head(prev);
        assert(join_slash(cs) =~= join_slash(prev) + seq!['/'] + cs.last());
    }
}

proof fn lemma_keep_all(cs: Seq<Seq<char>>)
    requires
        forall|i: int| 0 <= i < cs.len() ==> kept(#[trigger] cs[i]),
    ensures
        cs.filter(|c: Seq<char>| kept(c)) == cs,
    decreases cs.len(),
{
    reveal(Seq::filter);
    if cs.len() > 0 {
        let prev = cs.drop_last();
        assert forall|i: int| 0 <= i < prev.len() implies kept(#[trigger] prev[i]) by {
            assert(prev[i] == cs[i]);
        }
        lemma_keep_all(prev);
        assert(cs[cs.len() - 1] == cs.last());
        assert(prev.push(cs.last()) =~= cs);
    }
}

/// Reading back the text of a canonical path gives the path.
pub proof fn law_path_round_trip(p: Seq<Seq<char>>)
    requires
        canonical(p),
    ensures
        render(p).len() > 0,
        components(render(p)) == p,
{
    let keep = |c: Seq<char>| kept(c);
    if p[0] == root_part() {
        let cs = p.drop_first();
        assert forall|i: int| 0 <= i < cs.len() implies plain_part(#[trigger] cs[i]) by {
            assert(cs[i] == p[i + 1]);
        }
        let t = render(p);
        assert(t == seq!['/'] + join_slash(cs));
        assert(t[0] == '/');
        let slash = seq!['/'];
        assert(slash.drop_last() =~= Seq::<char>::empty());
        assert(slash.last() == '/');
        assert(split_on(Seq::<char>::empty(), '/') =~= seq![Seq::<char>::empty()]);
        assert(pieces(slash) =~= seq![Seq::<char>::empty(), Seq::<char>::empty()]);
        let none = Seq::<Seq<char>>::empty();
        assert(none.filter(keep) =~= none) by {
            reveal(Seq::filter);
        }
        none.lemma_filter_push(Seq::<char>::empty(), keep);
        assert(none.push(Seq::<char>::empty()) =~= seq![Seq::<char>::empty()]);
        assert(seq![Seq::<char>::empty()].filter(keep) =~= none);
        if cs.len() == 0 {
            assert(t =~= slash);
            seq![Seq::<char>::empty()].lemma_filter_push(Seq::<char>::empty(), keep);
            assert(seq![Seq::<char>::empty()].push(Seq::<char>::empty()) =~= pieces(t));
            assert(seq![root_part()] =~= p);
        } else {
            assert forall|i: int| 0 <= i < cs.len() implies !(#[trigger] cs[i]).contains('/') by {
                assert(plain_part(cs[i]));
            }
            lemma_pieces_join(cs);
            lemma_split_concat(slash, join_slash(cs), '/');
            assert(pieces(t) =~= seq![Seq::<char>::empty()] + cs);
            assert forall|i: int| 0 <= i < cs.len() implies kept(#[trigger] cs[i]) by {
                assert(plain_part(cs[i]));
            }
            lemma_keep_all(cs);
            Seq::filter_distributes_over_add(seq![Seq::<char>::empty()], cs, keep);
            assert(seq![root_part()] + cs =~= p);
        }
    } else if p[0] == cur_part() {
        let rest = p.drop_first();
        assert(p[0] != root_part()) by {
            assert(p[0][0] == '.');
        }
        assert forall|i: int| 0 <= i < p.len() implies !(#[trigger] p[i]).contains('/') by {
            if i == 0 {
                if p[0].contains('/') {
                    let k = choose|k: int| 0 <= k < p[0].len() && p[0][k] == '/';
                    assert(p[0][k] == '.');
                }
            } else {
                assert(plain_part(p[i]));
            }
        }
        assert forall|i: int| 0 <= i < rest.len() implies kept(#[trigger] rest[i]) by {
            assert(rest[i] == p[i + 1]);
            assert(plain_part(p[i + 1]));
        }
        lemma_pieces_join(p);
        lemma_keep_all(rest);
        assert(p =~= seq![cur_part()] + rest);
        Seq::filter_distributes_over_add(seq![cur_part()], rest, keep);
        let none = Seq::<Seq<char>>::empty();
        assert(none.filter(keep) =~= none) by {
            reveal(Seq::filter);
        }
        none.lemma_filter_push(cur_part(), keep);
        assert(none.push(cur_part()) =~= seq![cur_part()]);
        assert(!kept(cur_part()));
        lemma_join_head(p);
        let t = render(p);
        assert(t == join_slash(p));
        assert(pieces(t)[0] == cur_part());
        assert(t[0] == '.');
    } else {
        assert forall|i: int| 0 <= i < p.len() implies !(#[trigger] p[i]).contains('/') by {
            assert(plain_part(p[i]));
        }
        assert forall|i: int| 0 <= i < p.len() implies kept(#[trigger] p[i]) by {
            assert(plain_part(p[i]));
        }
        lemma_pieces_join(p);
        lemma_keep_all(p);
        assert(plain_part(p[0]));
        lemma_join_head(p);
        let t = render(p);
        assert(t == join_slash(p));
        assert(p[0][0] != '/') by {
            assert(!p[0].contains('/'));
        }
        assert(pieces(t)[0] == p[0]);
    }
}

/// Non-empty text parses to a non-empty path.
proof fn lemma_components_nonempty(t: Seq<char>)
    requires
        t.len() > 0,
    ensures
        components(t).len() > 0,
{
    if t[0] != '/' {
        let keep = |c: Seq<char>| kept(c);
        let ps = pieces(t);
        lemma_split_first_run(t, '/');
        lemma_split_nonempty(t, '/');
        if ps[0] != cur_part() {
            ps.filter_lemma(keep);
            assert(keep(ps[0]));
            assert(ps.filter(keep).contains(ps[0]));
        }
    }
}

/// The text of any non-empty path reads back as a path whose own text reads
/// back the same: paths compare by the components of their text, so what a
/// path reads back as is the same path as it.
pub proof fn law_read_back_is_same_path(p: Seq<Seq<char>>)
    requires
        render(p).len() > 0,
    ensures
        components(render(components(render(p)))) == components(render(p)),
{
    let t = render(p);
    lemma_components_nonempty(t);
    law_parsed_paths_are_canonical(t);
    law_path_round_trip(components(t));
}

/// Every non-empty path that text parses to is canonical, so it reads back
/// as written.
pub proof fn law_parsed_paths_are_canonical(t: Seq<char>)
    ensures
        components(t).len() > 0 ==> canonical(components(t)),
{
    let keep = |c: Seq<char>| kept(c);
    let ps = pieces(t);
    let body = ps.filter(keep);
    lemma_split_no_sep(t, '/');
    assert forall|i: int| 0 <= i < body.len() implies plain_part(#[trigger] body[i]) by {
        ps.lemma_filter_pred(keep, i);
        assert(body.contains(body[i]));
        ps.lemma_filter_contains_rev(keep, body[i]);
        let k = choose|k: int| 0 <= k < ps.len() && ps[k] == body[i];
        assert(!ps[k].contains('/'));
    }
    let c = components(t);
    if t.len() > 0 && t[0] == '/' {
        assert(c == seq![root_part()] + body);
        assert forall|i: int| 1 <= i < c.len() implies plain_part(#[trigger] c[i]) by {
            assert(c[i] == body[i - 1]);
        }
    } else if ps[0] == cur_part() {
        assert(c == seq![cur_part()] + body);
        assert forall|i: int| 1 <= i < c.len() implies plain_part(#[trigger] c[i]) by {
            assert(c[i] == body[i - 1]);
        }
    } else {
        assert(c == body);
        if c.len() > 0 {
            assert(plain_part(c[0]));
            assert(c[0] != root_part()) by {
                if c[0] == root_part() {
                    assert(c[0][0] == '/');
                    assert(c[0].contains('/'));
                }
            }
            assert(c[0] != cur_part());
        }
    }
}

/// The stem and the extension of a file name.
pub fn split_name(name: &str) -> (r: (String, Option<String>))
    ensures
        r.0@ == stem_of(name@),
        r.1 matches Some(e) ==> ext_of(name@) == Some(e@),
        r.1 is None ==> ext_of(name@) is None,
{
    let n = name.unicode_len();
    let mut k: usize = n;
    assert(name@.subrange(0, n as int) =~= name@);
    while k > 0 && name.get_char(k - 1) != '.'
        invariant
            n == name@.len(),
            k <= n,
            last_dot(name@) == last_dot(name@.subrange(0, k as int)),
        decreases k,
    {
        assert(name@.subrange(0, k as int).drop_last() =~= name@.subrange(0, k - 1));
        k = k - 1;
    }
    proof {
        assert(name@.subrange(0, n as int) =~= name@);
        if k > 0 {
            assert(name@.subrange(0, k as int).last() == '.');
        }
    }
    let is_up = n == 2 && name.get_char(0) == '.' && name.get_char(1) == '.';
    proof {
        if is_up {
            assert(name@ =~= up_part());
        }
        if name@ == up_part() {
            assert(name@[0] == '.' && name@[1] == '.');
        }
    }
    if is_up || k <= 1 {
        (String::from_str(name), None)
    } else {
        let stem = String::from_str(name.substring_char(0, k - 1));
        let ext = String::from_str(name.substring_char(k, n));
        (stem, Some(ext))
    }
}

pub fn is_normal_part(c: &str) -> (r: bool)
    ensures
        r == is_normal(c@),
{
    let n = c.unicode_len();
    if n == 0 || has_char(c, '/') {
        return false;
    }
    let cur = n == 1 && c.get_char(0) == '.';
    let up = n == 2 && c.get_char(0) == '.' && c.get_char(1) == '.';
    proof {
        if cur {
            assert(c@ =~= cur_part());
        }
        if up {
            assert(c@ =~= up_part());
        }
        if c@ == cur_part() {
            assert(c@[0] == '.');
        }
        if c@ == up_part() {
            assert(c@[0] == '.' && c@[1] == '.');
        }
    }
    !cur && !up
}

pub fn is_root_part(c: &str) -> (r: bool)
    ensures
        r == (c@ == root_part()),
{
    let r = c.unicode_len() == 1 && c.get_char(0) == '/';
    proof {
        if r {
            assert(c@ =~= root_part());
        }
        if c@ == root_part() {
            assert(c@[0] == '/');
        }
    }
    r
}

fn is_kept_part(c: &str) -> (r: bool)
    ensures
        r == kept(c@),
{
    c.unicode_len() > 0 && !is_cur_part(c)
}

fn is_cur_part(c: &str) -> (r: bool)
    ensures
        r == (c@ == cur_part()),
{
    let r = c.unicode_len() == 1 && c.get_char(0) == '.';
    proof {
        if r {
            assert(c@ =~= cur_part());
        }
        if c@ == cur_part() {
            assert(c@[0] == '.');
        }
    }
    r
}

impl LibPath {
    /// The empty path.
    pub fn empty() -> (r: LibPath)
        ensures
            r@ == Seq::<Seq<char>>::empty(),
    {
        let r = LibPath { parts: Vec::new() };
        assert(r@ =~= Seq::<Seq<char>>::empty());
        r
    }

    /// A path made of the given components, taken as they are.
    pub fn from_parts(parts: Vec<String>) -> (r: LibPath)
        ensures
            r@ == texts(parts@),
    {
        LibPath { parts }
    }


    /// `Path::new(text)` taken apart into its components.
    pub fn parse(text: &str) -> (r: LibPath)
        ensures
            r@ == components(text@),
    {
        let n = text.unicode_len();
        let rooted = n > 0 && text.get_char(0) == '/';
        let mut body: Vec<String> = Vec::new();
        let mut start: usize = 0;
        let mut i: usize = 0;
        let mut first_cur = false;
        let mut count: usize = 0;
        let ghost mut done: Seq<Seq<char>> = Seq::empty();
        assert(text@.subrange(0, 0) =~= Seq::<char>::empty());
        assert(pieces(Seq::<char>::empty()) =~= done.push(text@.subrange(0, 0)));
        assert(done.filter(|c: Seq<char>| kept(c)) =~= Seq::<Seq<char>>::empty()) by {
            reveal(Seq::filter);
        }
        while i < n
            invariant
                n == text@.len(),
                start <= i <= n,
                pieces(text@.subrange(0, i as int)) == done.push(text@.subrange(start as int, i as int)),
                texts(body@) == done.filter(|c: Seq<char>| kept(c)),
                done.len() == count,
                count <= i,
                done.len() == 0 ==> start == 0,
                done.len() > 0 ==> (first_cur == (done[0] == cur_part())),
            decreases n - i,
        {
            let c = text.get_char(i);
            proof {
                lemma_split_step(text@, '/', start as int, i as int, done);
            }
            if c == '/' {
                let piece = text.substring_char(start, i);
                let keep = is_kept_part(piece);
                proof {
                    done.lemma_filter_push(piece@, |c: Seq<char>| kept(c));
                }
                if count == 0 {
                    first_cur = is_cur_part(piece);
                }
                if keep {
                    body.push(String::from_str(piece));
                    assert(texts(body@) =~= done.push(piece@).filter(
                        |c: Seq<char>| kept(c),
                    ));
                } else {
                    assert(texts(body@) =~= done.push(piece@).filter(
                        |c: Seq<char>| kept(c),
                    ));
                }
                proof {
                    done = done.push(piece@);
                }
                start = i + 1;
                count = count + 1;
                assert(text@.subrange(start as int, i + 1) =~= Seq::<char>::empty());
            }
            i = i + 1;
        }
        assert(text@.subrange(0, n as int) =~= text@);
        let last = text.substring_char(start, n);
        let keep = is_kept_part(last);
        proof {
            done.lemma_filter_push(last@, |c: Seq<char>| kept(c));
        }
        if count == 0 {
            first_cur = is_cur_part(last);
        }
        if keep {
            body.push(String::from_str(last));
        }
        let ghost ps = done.push(last@);
        assert(texts(body@) =~= ps.filter(|c: Seq<char>| kept(c)));
        assert(ps[0] == cur_part() <==> first_cur);
        let mut parts: Vec<String> = Vec::new();
        if rooted {
            parts.push(String::from_str("/"));
            proof {
                reveal_strlit("/");
                assert("/"@ =~= root_part());
            }
        } else if first_cur {
            parts.push(String::from_str("."));
            proof {
                reveal_strlit(".");
                assert("."@ =~= cur_part());
            }
        }
        let ghost head = texts(parts@);
        parts.append(&mut body);
        let r = LibPath { parts };
        assert(r@ =~= head + ps.filter(|c: Seq<char>| kept(c)));
        proof {
            if rooted {
                assert(head =~= seq![root_part()]);
            } else if first_cur {
                assert(head =~= seq![cur_part()]);
            } else {
                assert(head =~= Seq::<Seq<char>>::empty());
            }
        }
        r
    }

    /// The path as text, the way it displays.
    pub fn to_text(&self) -> (r: String)
        ensures
            r@ == render(self@),
    {
        let n = self.parts.len();
        let mut out = String::new();
        let mut i: usize = 0;
        if n > 0 && is_root_part(self.parts[0].as_str()) {
            out.append("/");
            i = 1;
            proof {
                reveal_strlit("/");
            }
        }
        let skip: usize = i;
        let ghost rest = self@.subrange(skip as int, n as int);
        let ghost lead = out@;
        assert(rest.subrange(0, 0) =~= Seq::<Seq<char>>::empty());
        while i < n
            invariant
                n == self@.len(),
                skip <= i <= n,
                rest == self@.subrange(skip as int, n as int),
                out@ == lead + join_slash(rest.subrange(0, i - skip)),
            decreases n - i,
        {
            let ghost before = rest.subrange(0, i - skip);
            assert(rest.subrange(0, i - skip + 1).drop_last() =~= before);
            if i > skip {
                out.append("/");
                proof {
                    reveal_strlit("/");
                }
            } else {
                assert(before =~= Seq::<Seq<char>>::empty());
            }
            out.append(self.parts[i].as_str());
            assert(out@ =~= lead + join_slash(rest.subrange(0, i - skip + 1)));
            i = i + 1;
        }
        assert(rest.subrange(0, n - skip) =~= rest);
        proof {
            if skip == 1 {
                assert(rest =~= self@.drop_first());
            } else {
                assert(rest =~= self@);
                assert(lead =~= Seq::<char>::empty());
            }
        }
        out
    }

    /// An equal path, built anew.
    pub fn copied(&self) -> (r: LibPath)
        ensures
            r@ == self@,
    {
        let mut parts: Vec<String> = Vec::new();
        let mut i: usize = 0;
        while i < self.parts.len()
            invariant
                i <= self.parts.len(),
                parts@.len() == i,
                forall|k: int| 0 <= k < i ==> #[trigger] parts@[k]@ == self.parts@[k]@,
            decreases self.parts.len() - i,
        {
            parts.push(self.parts[i].clone());
            i = i + 1;
        }
        let r = LibPath { parts };
        assert(r@ =~= self@);
        r
    }

    pub fn len(&self) -> (r: usize)
        ensures
            r == self@.len(),
    {
        self.parts.len()
    }

    /// Component equality, as `Path`'s `==` decides it.
    pub fn same(&self, other: &LibPath) -> (r: bool)
        ensures
            r == (self@ == other@),
    {
        if self.parts.len() != other.parts.len() {
            assert(self@.len() != other@.len());
            return false;
        }
        let mut i: usize = 0;
        while i < self.parts.len()
            invariant
                self.parts.len() == other.parts.len(),
                i <= self.parts.len(),
                forall|k: int| 0 <= k < i ==> #[trigger] self@[k] == other@[k],
            decreases self.parts.len() - i,
        {
            if !same_text(self.parts[i].as_str(), other.parts[i].as_str()) {
                assert(self@[i as int] != other@[i as int]);
                return false;
            }
            i = i + 1;
        }
        assert(self@ =~= other@);
        true
    }

    /// `Path::starts_with`.
    pub fn starts_with(&self, base: &LibPath) -> (r: bool)
        ensures
            r == starts_with(self@, base@),
    {
        if base.parts.len() > self.parts.len() {
            return false;
        }
        let mut i: usize = 0;
        while i < base.parts.len()
            invariant
                base.parts.len() <= self.parts.len(),
                i <= base.parts.len(),
                forall|k: int| 0 <= k < i ==> #[trigger] base@[k] == self@[k],
            decreases base.parts.len() - i,
        {
            if !same_text(self.parts[i].as_str(), base.parts[i].as_str()) {
                assert(self@[i as int] != base@[i as int]);
                return false;
            }
            i = i + 1;
        }
        true
    }

    /// `Path::join` of one normal name.
    pub fn join(&self, name: &str) -> (r: LibPath)
        ensures
            r@ == self@.push(name@),
    {
        let mut r = self.copied();
        r.parts.push(String::from_str(name));
        assert(r@ =~= self@.push(name@));
        r
    }

    /// `Path::parent`.
    pub fn parent(&self) -> (r: Option<LibPath>)
        ensures
            r matches Some(q) ==> parent_of(self@) == Some(q@),
            r is None ==> parent_of(self@) is None,
    {
        let n = self.parts.len();
        if n == 0 || is_root_part(self.parts[n - 1].as_str()) {
            return None;
        }
        let mut r = self.copied();
        r.parts.pop();
        assert(r@ =~= self@.drop_last());
        Some(r)
    }

    /// `Path::file_name`.
    pub fn file_name(&self) -> (r: Option<String>)
        ensures
            r matches Some(s) ==> file_name_of(self@) == Some(s@),
            r is None ==> file_name_of(self@) is None,
    {
        let n = self.parts.len();
        if n == 0 || !is_normal_part(self.parts[n - 1].as_str()) {
            return None;
        }
        Some(self.parts[n - 1].clone())
    }
}

} // verus!
