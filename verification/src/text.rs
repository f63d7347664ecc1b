//! Character-level helpers over `str`: whitespace trimming, ASCII case
//! folding, comparison and decimal rendering, each specified over the
//! string's sequence of characters.

use vstd::prelude::*;
use vstd::string::*;

verus! {

/// Unicode `White_Space`, the set that `char::is_whitespace` tests.
pub open spec fn is_ws(c: char) -> bool {
    let u = c as u32;
    ||| 9 <= u <= 13
    ||| u == 32
    ||| u == 0x85
    ||| u == 0xA0
    ||| u == 0x1680
    ||| 0x2000 <= u <= 0x200A
    ||| u == 0x2028
    ||| u == 0x2029
    ||| u == 0x202F
    ||| u == 0x205F
    ||| u == 0x3000
}

/// `s` without its leading whitespace.
pub open spec fn trim_front(s: Seq<char>) -> Seq<char>
    decreases s.len(),
{
    if s.len() > 0 && is_ws(s[0]) {
        trim_front(s.drop_first())
    } else {
        s
    }
}

/// `s` without its trailing whitespace.
pub open spec fn trim_back(s: Seq<char>) -> Seq<char>
    decreases s.len(),
{
    if s.len() > 0 && is_ws(s.last()) {
        trim_back(s.drop_last())
    } else {
        s
    }
}

/// What `str::trim` gives back.
pub open spec fn trim(s: Seq<char>) -> Seq<char> {
    trim_back(trim_front(s))
}

/// The code of `c` after ASCII lower-casing; other characters keep theirs.
pub open spec fn fold(c: char) -> u32 {
    let u = c as u32;
    if 65 <= u <= 90 {
        (u + 32) as u32
    } else {
        u
    }
}

/// What `str::eq_ignore_ascii_case` decides.
pub open spec fn eq_ignore_case(a: Seq<char>, b: Seq<char>) -> bool {
    &&& a.len() == b.len()
    &&& forall|i: int| 0 <= i < a.len() ==> #[trigger] fold(a[i]) == fold(b[i])
}

/// Decimal digits of `n`, most significant first, without leading zeros.
pub open spec fn decimal(n: nat) -> Seq<char>
    decreases n,
{
    if n < 10 {
        seq![digit(n)]
    } else {
        decimal(n / 10) + seq![digit(n % 10)]
    }
}

pub open spec fn digit(d: nat) -> char {
    if d == 0 {
        '0'
    } else if d == 1 {
        '1'
    } else if d == 2 {
        '2'
    } else if d == 3 {
        '3'
    } else if d == 4 {
        '4'
    } else if d == 5 {
        '5'
    } else if d == 6 {
        '6'
    } else if d == 7 {
        '7'
    } else if d == 8 {
        '8'
    } else {
        '9'
    }
}

/// `t` cut at every `sep`: the runs between separators, empty runs included.
pub open spec fn split_on(t: Seq<char>, sep: char) -> Seq<Seq<char>>
    decreases t.len(),
{
    if t.len() == 0 {
        seq![Seq::<char>::empty()]
    } else {
        let p = split_on(t.drop_last(), sep);
        if t.last() == sep {
            p.push(Seq::<char>::empty())
        } else {
            p.update(p.len() - 1, p.last().push(t.last()))
        }
    }
}

/// Text that does not start with the separator starts with a non-empty run.
pub proof fn lemma_split_first_run(t: Seq<char>, sep: char)
    requires
        t.len() > 0,
        t[0] != sep,
    ensures
        split_on(t, sep)[0].len() > 0,
    decreases t.len(),
{
    lemma_split_nonempty(t.drop_last(), sep);
    if t.len() > 1 {
        lemma_split_first_run(t.drop_last(), sep);
    }
}

/// One more character scanned: a separator closes the current run, any
/// other character extends it.
pub proof fn lemma_split_step(t: Seq<char>, sep: char, start: int, i: int, done: Seq<Seq<char>>)
    requires
        0 <= start <= i < t.len(),
        split_on(t.subrange(0, i), sep) == done.push(t.subrange(start, i)),
    ensures
        t[i] == sep ==> split_on(t.subrange(0, i + 1), sep) == done.push(t.subrange(start, i)).push(
            Seq::<char>::empty(),
        ),
        t[i] != sep ==> split_on(t.subrange(0, i + 1), sep) == done.push(t.subrange(start, i + 1)),
{
    let u = t.subrange(0, i + 1);
    assert(u.drop_last() =~= t.subrange(0, i));
    assert(u.last() == t[i]);
    if t[i] != sep {
        assert(t.subrange(start, i).push(t[i]) =~= t.subrange(start, i + 1));
        assert(done.push(t.subrange(start, i)).update(done.len() as int, t.subrange(start, i + 1))
            =~= done.push(t.subrange(start, i + 1)));
    }
}

/// Every text yields at least one run.
pub proof fn lemma_split_nonempty(t: Seq<char>, sep: char)
    ensures
        split_on(t, sep).len() >= 1,
    decreases t.len(),
{
    if t.len() > 0 {
        lemma_split_nonempty(t.drop_last(), sep);
    }
}

/// No run holds the separator.
pub proof fn lemma_split_no_sep(t: Seq<char>, sep: char)
    ensures
        forall|i: int| 0 <= i < split_on(t, sep).len() ==> !(#[trigger] split_on(t, sep)[i]).contains(sep),
    decreases t.len(),
{
    if t.len() == 0 {
        assert(split_on(t, sep) =~= seq![Seq::<char>::empty()]);
        assert forall|i: int| 0 <= i < split_on(t, sep).len() implies !(#[trigger] split_on(
            t,
            sep,
        )[i]).contains(sep) by {
            assert(split_on(t, sep)[i] =~= Seq::<char>::empty());
        }
    } else {
        lemma_split_no_sep(t.drop_last(), sep);
        lemma_split_nonempty(t.drop_last(), sep);
        let p = split_on(t.drop_last(), sep);
        let c = t.last();
        assert forall|i: int| 0 <= i < split_on(t, sep).len() implies !(#[trigger] split_on(
            t,
            sep,
        )[i]).contains(sep) by {
            if c == sep {
                if i < p.len() {
                    assert(split_on(t, sep)[i] == p[i]);
                } else {
                    assert(split_on(t, sep)[i] =~= Seq::<char>::empty());
                }
            } else {
                if i < p.len() - 1 {
                    assert(split_on(t, sep)[i] == p[i]);
                } else {
                    let q = p.last().push(c);
                    assert(split_on(t, sep)[i] == q);
                    assert(!p[p.len() - 1].contains(sep));
                    if q.contains(sep) {
                        let k = choose|k: int| 0 <= k < q.len() && q[k] == sep;
                        if k < q.len() - 1 {
                            assert(p.last()[k] == sep);
                            assert(p.last().contains(sep));
                        }
                    }
                }
            }
        }
    }
}

/// A text without the separator is a single run.
pub proof fn lemma_split_plain(t: Seq<char>, sep: char)
    requires
        !t.contains(sep),
    ensures
        split_on(t, sep) == seq![t],
    decreases t.len(),
{
    if t.len() > 0 {
        assert(!t.drop_last().contains(sep)) by {
            if t.drop_last().contains(sep) {
                let k = choose|k: int| 0 <= k < t.drop_last().len() && t.drop_last()[k] == sep;
                assert(t[k] == sep);
            }
        }
        lemma_split_plain(t.drop_last(), sep);
        assert(t[t.len() - 1] == t.last());
        assert(t.drop_last().push(t.last()) =~= t);
        assert(seq![t.drop_last()].update(0, t) =~= seq![t]);
    } else {
        assert(t =~= Seq::<char>::empty());
    }
}

/// The runs of `a + b` when `a` closes its last run (it is empty or ends
/// with the separator): those of `a`, then those of `b`.
pub proof fn lemma_split_concat(a: Seq<char>, b: Seq<char>, sep: char)
    requires
        split_on(a, sep).last() == Seq::<char>::empty(),
    ensures
        split_on(a + b, sep) == split_on(a, sep).drop_last() + split_on(b, sep),
    decreases b.len(),
{
    lemma_split_nonempty(a, sep);
    let d = split_on(a, sep).drop_last();
    if b.len() == 0 {
        assert(a + b =~= a);
        assert(d + seq![Seq::<char>::empty()] =~= split_on(a, sep));
    } else {
        assert((a + b).drop_last() =~= a + b.drop_last());
        assert((a + b).last() == b.last());
        lemma_split_concat(a, b.drop_last(), sep);
        lemma_split_nonempty(b.drop_last(), sep);
        let s = split_on(b.drop_last(), sep);
        if b.last() == sep {
            assert((d + s).push(Seq::<char>::empty()) =~= d + s.push(Seq::<char>::empty()));
        } else {
            assert((d + s).update((d + s).len() - 1, (d + s).last().push(b.last())) =~= d + s.update(
                s.len() - 1,
                s.last().push(b.last()),
            ));
        }
    }
}

/// Lines written one after another, each one ended by `sep`.
pub open spec fn ended_lines(ls: Seq<Seq<char>>, sep: char) -> Seq<char>
    decreases ls.len(),
{
    if ls.len() == 0 {
        Seq::empty()
    } else {
        ended_lines(ls.drop_last(), sep) + ls.last() + seq![sep]
    }
}

pub proof fn lemma_ended_concat(a: Seq<Seq<char>>, b: Seq<Seq<char>>, sep: char)
    ensures
        ended_lines(a + b, sep) == ended_lines(a, sep) + ended_lines(b, sep),
    decreases b.len(),
{
    if b.len() == 0 {
        assert(a + b =~= a);
        assert(ended_lines(a, sep) + Seq::<char>::empty() =~= ended_lines(a, sep));
    } else {
        assert((a + b).drop_last() =~= a + b.drop_last());
        lemma_ended_concat(a, b.drop_last(), sep);
        assert(ended_lines(a + b, sep) =~= ended_lines(a, sep) + ended_lines(b, sep));
    }
}

/// Cutting lines written with `ended_lines` gives them back, and one empty
/// run after the last separator.
pub proof fn lemma_split_ended(ls: Seq<Seq<char>>, sep: char)
    requires
        forall|i: int| 0 <= i < ls.len() ==> !(#[trigger] ls[i]).contains(sep),
    ensures
        split_on(ended_lines(ls, sep), sep) == ls.push(Seq::<char>::empty()),
    decreases ls.len(),
{
    if ls.len() == 0 {
        assert(split_on(Seq::<char>::empty(), sep) =~= ls.push(Seq::<char>::empty()));
    } else {
        let prev = ls.drop_last();
        let l = ls.last();
        assert forall|i: int| 0 <= i < prev.len() implies !(#[trigger] prev[i]).contains(sep) by {
            assert(prev[i] == ls[i]);
        }
        lemma_split_ended(prev, sep);
        let x = ended_lines(prev, sep);
        let y = l + seq![sep];
        assert(split_on(x, sep).last() == Seq::<char>::empty());
        lemma_split_concat(x, y, sep);
        assert(ended_lines(ls, sep) =~= x + y);
        assert(ls[ls.len() - 1] == l);
        lemma_split_plain(l, sep);
        assert(y.drop_last() =~= l);
        assert(y.last() == sep);
        assert(split_on(y, sep) =~= seq![l, Seq::<char>::empty()]);
        assert(split_on(x, sep).drop_last() =~= prev);
        assert(prev + seq![l, Seq::<char>::empty()] =~= ls.push(Seq::<char>::empty()));
    }
}

pub fn char_is_ws(c: char) -> (r: bool)
    ensures
        r == is_ws(c),
{
    let u = c as u32;
    (9 <= u && u <= 13) || u == 32 || u == 0x85 || u == 0xA0 || u == 0x1680 || (0x2000 <= u && u
        <= 0x200A) || u == 0x2028 || u == 0x2029 || u == 0x202F || u == 0x205F || u == 0x3000
}

pub fn fold_char(c: char) -> (r: u32)
    ensures
        r == fold(c),
{
    let u = c as u32;
    if 65 <= u && u <= 90 {
        u + 32
    } else {
        u
    }
}

proof fn lemma_trim_front_step(s: Seq<char>, i: int)
    requires
        0 <= i < s.len(),
        is_ws(s[i]),
    ensures
        trim_front(s.subrange(i, s.len() as int)) == trim_front(s.subrange(i + 1, s.len() as int)),
{
    assert(s.subrange(i, s.len() as int).drop_first() =~= s.subrange(i + 1, s.len() as int));
}

proof fn lemma_trim_back_step(s: Seq<char>, i: int, j: int)
    requires
        0 <= i < j <= s.len(),
        is_ws(s[j - 1]),
    ensures
        trim_back(s.subrange(i, j)) == trim_back(s.subrange(i, j - 1)),
{
    assert(s.subrange(i, j).drop_last() =~= s.subrange(i, j - 1));
}

/// Index range `[start, end)` of `s` that `trim` keeps.
pub fn trim_bounds(s: &str) -> (r: (usize, usize))
    ensures
        r.0 <= r.1 <= s@.len(),
        trim(s@) == s@.subrange(r.0 as int, r.1 as int),
{
    let n = s.unicode_len();
    let mut i: usize = 0;
    assert(s@.subrange(0, s@.len() as int) =~= s@);
    while i < n && char_is_ws(s.get_char(i))
        invariant
            n == s@.len(),
            i <= n,
            trim_front(s@) == trim_front(s@.subrange(i as int, n as int)),
        decreases n - i,
    {
        proof {
            lemma_trim_front_step(s@, i as int);
        }
        i = i + 1;
    }
    assert(trim_front(s@) == s@.subrange(i as int, n as int));
    let mut j: usize = n;
    while j > i && char_is_ws(s.get_char(j - 1))
        invariant
            n == s@.len(),
            i <= j <= n,
            trim(s@) == trim_back(s@.subrange(i as int, j as int)),
        decreases j - i,
    {
        proof {
            lemma_trim_back_step(s@, i as int, j as int);
        }
        j = j - 1;
    }
    (i, j)
}

/// What `str::trim` gives back, as an owned string.
pub fn trim_str(s: &str) -> (r: String)
    ensures
        r@ == trim(s@),
{
    let (a, b) = trim_bounds(s);
    String::from_str(s.substring_char(a, b))
}

/// Whether two strings hold the same characters.
pub fn same_text(a: &str, b: &str) -> (r: bool)
    ensures
        r == (a@ == b@),
{
    let n = a.unicode_len();
    if n != b.unicode_len() {
        return false;
    }
    let mut i: usize = 0;
    while i < n
        invariant
            n == a@.len(),
            n == b@.len(),
            i <= n,
            forall|k: int| 0 <= k < i ==> a@[k] == b@[k],
        decreases n - i,
    {
        if a.get_char(i) != b.get_char(i) {
            return false;
        }
        i = i + 1;
    }
    assert(a@ =~= b@);
    true
}

/// What `str::eq_ignore_ascii_case` decides.
pub fn eq_ignore_ascii_case(a: &str, b: &str) -> (r: bool)
    ensures
        r == eq_ignore_case(a@, b@),
{
    let n = a.unicode_len();
    if n != b.unicode_len() {
        return false;
    }
    let mut i: usize = 0;
    while i < n
        invariant
            n == a@.len(),
            n == b@.len(),
            i <= n,
            forall|k: int| 0 <= k < i ==> #[trigger] fold(a@[k]) == fold(b@[k]),
        decreases n - i,
    {
        if fold_char(a.get_char(i)) != fold_char(b.get_char(i)) {
            return false;
        }
        i = i + 1;
    }
    true
}

/// Whether `c` occurs in `s`.
pub fn has_char(s: &str, c: char) -> (r: bool)
    ensures
        r == s@.contains(c),
{
    let n = s.unicode_len();
    let mut i: usize = 0;
    while i < n
        invariant
            n == s@.len(),
            i <= n,
            forall|k: int| 0 <= k < i ==> s@[k] != c,
        decreases n - i,
    {
        if s.get_char(i) == c {
            assert(s@[i as int] == c);
            return true;
        }
        i = i + 1;
    }
    false
}

fn digit_str(d: u32) -> (r: &'static str)
    requires
        d < 10,
    ensures
        r@ == seq![digit(d as nat)],
{
    proof {
        reveal_strlit("0");
        reveal_strlit("1");
        reveal_strlit("2");
        reveal_strlit("3");
        reveal_strlit("4");
        reveal_strlit("5");
        reveal_strlit("6");
        reveal_strlit("7");
        reveal_strlit("8");
        reveal_strlit("9");
    }
    if d == 0 {
        "0"
    } else if d == 1 {
        "1"
    } else if d == 2 {
        "2"
    } else if d == 3 {
        "3"
    } else if d == 4 {
        "4"
    } else if d == 5 {
        "5"
    } else if d == 6 {
        "6"
    } else if d == 7 {
        "7"
    } else if d == 8 {
        "8"
    } else {
        "9"
    }
}

/// `n` in decimal, as `format!("{n}")` writes it.
pub fn decimal_string(n: u32) -> (r: String)
    ensures
        r@ == decimal(n as nat),
    decreases n,
{
    if n < 10 {
        String::from_str(digit_str(n))
    } else {
        let mut s = decimal_string(n / 10);
        s.append(digit_str(n % 10));
        s
    }
}

/// `n` in decimal, as `format!("{n}")` writes it.
pub fn decimal_usize(n: usize) -> (r: String)
    ensures
        r@ == decimal(n as nat),
    decreases n,
{
    if n < 10 {
        String::from_str(digit_str(n as u32))
    } else {
        let mut s = decimal_usize(n / 10);
        s.append(digit_str((n % 10) as u32));
        s
    }
}

} // verus!
