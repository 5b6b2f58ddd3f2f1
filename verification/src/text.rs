//! Text as sequences of characters: the small vocabulary of string operations
//! the rest of the library is written in.
//!
//! Every operation is stated over `Seq<char>`, the view of `str` and `String`.
use vstd::prelude::*;

verus! {

/// `String::push` of std: appends one character to the end.
pub assume_specification[ String::push ](s: &mut String, c: char)
    ensures
        final(s)@ == old(s)@.push(c),
;

//-- Characters and whole strings -----------------------------------------------
/// The characters of `s`, in order.
pub fn chars_of(s: &str) -> (v: Vec<char>)
    ensures
        v@ == s@,
{
    let mut v: Vec<char> = Vec::new();
    for c in it: s.chars()
        invariant
            v@ == it.seq().take(it.index() as int),
            it.seq() == s@,
    {
        v.push(c);
    }
    v
}

/// The characters of `v` from `lo` up to `hi`, as a string.
pub fn text_range(v: &Vec<char>, lo: usize, hi: usize) -> (s: String)
    requires
        lo <= hi <= v@.len(),
    ensures
        s@ == v@.subrange(lo as int, hi as int),
{
    let mut s = String::new();
    let mut i: usize = lo;
    while i < hi
        invariant
            lo <= i <= hi <= v@.len(),
            s@ == v@.subrange(lo as int, i as int),
        decreases hi - i,
    {
        s.push(v[i]);
        i = i + 1;
        assert(v@.subrange(lo as int, i as int) =~= v@.subrange(lo as int, i - 1).push(v@[i - 1]));
    }
    s
}

/// A copy of `s`.
pub fn copied(s: &str) -> (r: String)
    ensures
        r@ == s@,
{
    s.to_owned()
}

/// A copy of an optional string.
pub fn copied_opt(s: &Option<String>) -> (r: Option<String>)
    ensures
        r.deep_view() == s.deep_view(),
{
    match s {
        Some(t) => Some(copied(t.as_str())),
        None => None,
    }
}

/// Whether two strings hold the same characters.
pub fn same_text(a: &str, b: &str) -> (r: bool)
    ensures
        r == (a@ == b@),
{
    let x = chars_of(a);
    let y = chars_of(b);
    if x.len() != y.len() {
        return false;
    }
    let mut i: usize = 0;
    while i < x.len()
        invariant
            i <= x@.len(),
            x@.len() == y@.len(),
            x@ == a@,
            y@ == b@,
            forall|j: int| 0 <= j < i ==> x@[j] == y@[j],
        decreases x@.len() - i,
    {
        if x[i] != y[i] {
            return false;
        }
        i = i + 1;
    }
    assert(a@ =~= b@);
    true
}

/// Whether `s` comes before `t` in the order of their characters' code points,
/// a prefix coming first. UTF-8 keeps this order, so it is also the byte order.
pub open spec fn text_less(s: Seq<char>, t: Seq<char>) -> bool
    decreases s.len(),
{
    if t.len() == 0 {
        false
    } else if s.len() == 0 {
        true
    } else if s[0] != t[0] {
        s[0] < t[0]
    } else {
        text_less(s.drop_first(), t.drop_first())
    }
}

/// Whether `a` orders strictly before `b`.
pub fn precedes(a: &str, b: &str) -> (r: bool)
    ensures
        r == text_less(a@, b@),
{
    let x = chars_of(a);
    let y = chars_of(b);
    let mut i: usize = 0;
    assert(x@.skip(0) =~= x@);
    assert(y@.skip(0) =~= y@);
    while i < x.len() && i < y.len()
        invariant
            i <= x@.len(),
            i <= y@.len(),
            x@ == a@,
            y@ == b@,
            text_less(a@, b@) == text_less(x@.skip(i as int), y@.skip(i as int)),
        decreases x@.len() - i,
    {
        if x[i] != y[i] {
            return x[i] < y[i];
        }
        assert(x@.skip(i as int).drop_first() =~= x@.skip(i + 1));
        assert(y@.skip(i as int).drop_first() =~= y@.skip(i + 1));
        i = i + 1;
    }
    i < y.len()
}

//-- Searching --------------------------------------------------------------------
/// Where `c` first stands in `s`.
pub open spec fn first_index(s: Seq<char>, c: char) -> Option<int>
    decreases s.len(),
{
    if s.len() == 0 {
        None
    } else if s[0] == c {
        Some(0)
    } else {
        match first_index(s.drop_first(), c) {
            Some(i) => Some(i + 1),
            None => None,
        }
    }
}

/// Where `c` last stands in `s`.
pub open spec fn last_index(s: Seq<char>, c: char) -> Option<int>
    decreases s.len(),
{
    if s.len() == 0 {
        None
    } else if s.last() == c {
        Some(s.len() - 1)
    } else {
        last_index(s.drop_last(), c)
    }
}

pub(crate) proof fn lemma_first_index(s: Seq<char>, c: char)
    ensures
        match first_index(s, c) {
            Some(i) => 0 <= i < s.len() && s[i] == c && (forall|j: int| 0 <= j < i ==> s[j] != c),
            None => forall|j: int| 0 <= j < s.len() ==> s[j] != c,
        },
    decreases s.len(),
{
    if s.len() > 0 && s[0] != c {
        let t = s.drop_first();
        lemma_first_index(t, c);
        assert(forall|j: int| 1 <= j < s.len() ==> s[j] == t[j - 1]);
    }
}

pub(crate) proof fn lemma_last_index(s: Seq<char>, c: char)
    ensures
        match last_index(s, c) {
            Some(i) => 0 <= i < s.len() && s[i] == c && (forall|j: int|
                i < j < s.len() ==> s[j] != c),
            None => forall|j: int| 0 <= j < s.len() ==> s[j] != c,
        },
    decreases s.len(),
{
    if s.len() > 0 && s.last() != c {
        let t = s.drop_last();
        lemma_last_index(t, c);
        assert(forall|j: int| 0 <= j < t.len() ==> s[j] == t[j]);
    }
}

/// Where `c` first stands in `v`.
pub fn find_first(v: &Vec<char>, c: char) -> (r: Option<usize>)
    ensures
        match r {
            Some(i) => first_index(v@, c) == Some(i as int) && i < v@.len() && v@[i as int] == c,
            None => first_index(v@, c) is None,
        },
{
    proof {
        lemma_first_index(v@, c);
    }
    let mut i: usize = 0;
    while i < v.len()
        invariant
            i <= v@.len(),
            forall|j: int| 0 <= j < i ==> v@[j] != c,
        decreases v@.len() - i,
    {
        if v[i] == c {
            proof {
                lemma_first_index(v@, c);
            }
            return Some(i);
        }
        i = i + 1;
    }
    None
}

/// Where `c` last stands in `v`.
pub fn find_last(v: &Vec<char>, c: char) -> (r: Option<usize>)
    ensures
        match r {
            Some(i) => last_index(v@, c) == Some(i as int) && i < v@.len() && v@[i as int] == c,
            None => last_index(v@, c) is None,
        },
{
    proof {
        lemma_last_index(v@, c);
    }
    let mut i: usize = v.len();
    while i > 0
        invariant
            i <= v@.len(),
            forall|j: int| i <= j < v@.len() ==> v@[j] != c,
        decreases i,
    {
        i = i - 1;
        if v[i] == c {
            proof {
                lemma_last_index(v@, c);
            }
            return Some(i);
        }
    }
    None
}

/// Whether `s` starts with `p`.
pub fn starts_with(s: &str, p: &str) -> (r: bool)
    ensures
        r == p@.is_prefix_of(s@),
{
    let x = chars_of(s);
    let y = chars_of(p);
    if x.len() < y.len() {
        return false;
    }
    let mut i: usize = 0;
    while i < y.len()
        invariant
            i <= y@.len() <= x@.len(),
            x@ == s@,
            y@ == p@,
            forall|j: int| 0 <= j < i ==> x@[j] == y@[j],
        decreases y@.len() - i,
    {
        if x[i] != y[i] {
            assert(s@.subrange(0, p@.len() as int)[i as int] != p@[i as int]);
            return false;
        }
        i = i + 1;
    }
    assert(s@.subrange(0, p@.len() as int) =~= p@);
    true
}

/// What follows `p` in `s`, where `s` starts with `p`.
pub fn strip_prefix(s: &str, p: &str) -> (r: Option<String>)
    ensures
        match r {
            Some(t) => p@.is_prefix_of(s@) && t@ == s@.skip(p@.len() as int),
            None => !p@.is_prefix_of(s@),
        },
{
    if starts_with(s, p) {
        let x = chars_of(s);
        let k: usize = chars_of(p).len();
        let t = text_range(&x, k, x.len());
        assert(t@ =~= s@.skip(p@.len() as int));
        Some(t)
    } else {
        None
    }
}

/// What `s` is around the first `c`: before it, and after it.
pub open spec fn cut_first(s: Seq<char>, c: char) -> Option<(Seq<char>, Seq<char>)> {
    match first_index(s, c) {
        Some(i) => Some((s.take(i), s.skip(i + 1))),
        None => None,
    }
}

/// What `s` is around the last `c`: before it, and after it.
pub open spec fn cut_last(s: Seq<char>, c: char) -> Option<(Seq<char>, Seq<char>)> {
    match last_index(s, c) {
        Some(i) => Some((s.take(i), s.skip(i + 1))),
        None => None,
    }
}

/// Splits `s` at the first `c`.
pub fn split_once(s: &str, c: char) -> (r: Option<(String, String)>)
    ensures
        r.deep_view() == cut_first(s@, c),
{
    let v = chars_of(s);
    match find_first(&v, c) {
        Some(i) => {
            let n: usize = v.len();
            let a = text_range(&v, 0, i);
            let b = text_range(&v, i + 1, n);
            assert(a@ =~= s@.take(i as int));
            assert(b@ =~= s@.skip(i + 1));
            Some((a, b))
        },
        None => None,
    }
}

/// Splits `s` at the last `c`.
pub fn rsplit_once(s: &str, c: char) -> (r: Option<(String, String)>)
    ensures
        r.deep_view() == cut_last(s@, c),
{
    let v = chars_of(s);
    match find_last(&v, c) {
        Some(i) => {
            let n: usize = v.len();
            let a = text_range(&v, 0, i);
            let b = text_range(&v, i + 1, n);
            assert(a@ =~= s@.take(i as int));
            assert(b@ =~= s@.skip(i + 1));
            Some((a, b))
        },
        None => None,
    }
}

/// The pieces of `s` between the `c`s: one more piece than there are `c`s.
pub open spec fn pieces(s: Seq<char>, c: char) -> Seq<Seq<char>>
    decreases s.len(),
{
    match first_index(s, c) {
        None => seq![s],
        Some(i) => if 0 <= i < s.len() {
            seq![s.take(i)] + pieces(s.skip(i + 1), c)
        } else {
            seq![s]
        },
    }
}

/// The pieces of `s` between the `c`s.
pub fn split(s: &str, c: char) -> (r: Vec<String>)
    ensures
        r.deep_view() == pieces(s@, c),
{
    let v = chars_of(s);
    let mut out: Vec<String> = Vec::new();
    let mut start: usize = 0;
    let mut i: usize = 0;
    assert(v@.skip(0) =~= v@);
    assert(out.deep_view() + pieces(v@, c) =~= pieces(v@, c));
    while i < v.len()
        invariant
            start <= i <= v@.len(),
            v@ == s@,
            forall|j: int| start <= j < i ==> v@[j] != c,
            out.deep_view() + pieces(v@.skip(start as int), c) == pieces(s@, c),
        decreases v@.len() - i,
    {
        if v[i] == c {
            let ghost rest = v@.skip(start as int);
            let ghost k = i - start;
            let ghost before = out.deep_view();
            proof {
                lemma_first_index(rest, c);
                assert(rest[k] == c);
                assert(forall|j: int| 0 <= j < k ==> rest[j] == v@[j + start]);
                assert(first_index(rest, c) == Some(k));
                assert(rest.skip(k + 1) =~= v@.skip(i + 1));
            }
            let piece = text_range(&v, start, i);
            assert(piece@ =~= rest.take(k));
            out.push(piece);
            assert(out.deep_view() =~= before.push(rest.take(k)));
            assert(out.deep_view() + pieces(v@.skip(i + 1), c) =~= before + pieces(rest, c));
            start = i + 1;
        }
        i = i + 1;
    }
    let ghost rest = v@.skip(start as int);
    let ghost before = out.deep_view();
    proof {
        lemma_first_index(rest, c);
        assert(forall|j: int| 0 <= j < rest.len() ==> rest[j] == v@[j + start]);
    }
    let last = text_range(&v, start, v.len());
    assert(last@ =~= rest);
    out.push(last);
    assert(out.deep_view() =~= before.push(rest));
    assert(before.push(rest) =~= before + seq![rest]);
    out
}

//-- White space ------------------------------------------------------------------
/// The characters with Unicode's `White_Space` property.
pub open spec fn white(c: char) -> bool {
    ||| '\u{9}' <= c <= '\u{d}'
    ||| c == '\u{20}'
    ||| c == '\u{85}'
    ||| c == '\u{a0}'
    ||| c == '\u{1680}'
    ||| '\u{2000}' <= c <= '\u{200a}'
    ||| c == '\u{2028}'
    ||| c == '\u{2029}'
    ||| c == '\u{202f}'
    ||| c == '\u{205f}'
    ||| c == '\u{3000}'
}

/// Whether `c` has Unicode's `White_Space` property.
pub fn is_white(c: char) -> (r: bool)
    ensures
        r == white(c),
{
    ('\u{9}' <= c && c <= '\u{d}') || c == '\u{20}' || c == '\u{85}' || c == '\u{a0}' || c
        == '\u{1680}' || ('\u{2000}' <= c && c <= '\u{200a}') || c == '\u{2028}' || c == '\u{2029}'
        || c == '\u{202f}' || c == '\u{205f}' || c == '\u{3000}'
}

/// `s` without its leading white space.
pub open spec fn trim_start(s: Seq<char>) -> Seq<char>
    decreases s.len(),
{
    if s.len() > 0 && white(s[0]) {
        trim_start(s.drop_first())
    } else {
        s
    }
}

/// `s` without its trailing white space.
pub open spec fn trim_end(s: Seq<char>) -> Seq<char>
    decreases s.len(),
{
    if s.len() > 0 && white(s.last()) {
        trim_end(s.drop_last())
    } else {
        s
    }
}

/// `s` without the white space around it.
pub open spec fn trimmed(s: Seq<char>) -> Seq<char> {
    trim_end(trim_start(s))
}

proof fn lemma_trim_start(s: Seq<char>)
    ensures
        trim_start(s).len() > 0 ==> !white(trim_start(s)[0]),
    decreases s.len(),
{
    if s.len() > 0 && white(s[0]) {
        lemma_trim_start(s.drop_first());
    }
}

proof fn lemma_trim_end(s: Seq<char>)
    ensures
        trim_end(s).len() <= s.len(),
        trim_end(s) == s.take(trim_end(s).len() as int),
        trim_end(s).len() > 0 ==> !white(trim_end(s).last()),
    decreases s.len(),
{
    if s.len() > 0 && white(s.last()) {
        lemma_trim_end(s.drop_last());
        assert(s.drop_last().take(trim_end(s).len() as int) =~= s.take(trim_end(s).len() as int));
    } else {
        assert(s.take(s.len() as int) =~= s);
    }
}

/// What is trimmed neither starts nor ends in white space, and what does not is already
/// trimmed.
pub(crate) proof fn lemma_trimmed(s: Seq<char>)
    ensures
        trimmed(s).len() > 0 ==> !white(trimmed(s)[0]) && !white(trimmed(s).last()),
        s.len() > 0 && !white(s[0]) && !white(s.last()) ==> trimmed(s) == s,
{
    lemma_trim_start(s);
    lemma_trim_end(trim_start(s));
}

/// `s` without the white space around it.
pub fn trim(s: &str) -> (r: String)
    ensures
        r@ == trimmed(s@),
{
    let v = chars_of(s);
    let mut i: usize = 0;
    assert(v@.skip(0) =~= v@);
    while i < v.len() && is_white(v[i])
        invariant
            i <= v@.len(),
            trim_start(v@) == trim_start(v@.skip(i as int)),
        decreases v@.len() - i,
    {
        assert(v@.skip(i as int).drop_first() =~= v@.skip(i + 1));
        i = i + 1;
    }
    let ghost t = v@.skip(i as int);
    assert(trim_start(v@) == t);
    let mut j: usize = v.len();
    assert(v@.subrange(i as int, j as int) =~= t);
    while j > i && is_white(v[j - 1])
        invariant
            i <= j <= v@.len(),
            trim_end(t) == trim_end(v@.subrange(i as int, j as int)),
        decreases j,
    {
        assert(v@.subrange(i as int, j as int).drop_last() =~= v@.subrange(i as int, j - 1));
        j = j - 1;
    }
    text_range(&v, i, j)
}

/// `s` without the `c`s at its end.
pub open spec fn trim_end_of(s: Seq<char>, c: char) -> Seq<char>
    decreases s.len(),
{
    if s.len() > 0 && s.last() == c {
        trim_end_of(s.drop_last(), c)
    } else {
        s
    }
}

/// `s` without the `c`s at its end.
pub fn trim_end_matches(s: &str, c: char) -> (r: String)
    ensures
        r@ == trim_end_of(s@, c),
{
    let v = chars_of(s);
    let mut j: usize = v.len();
    assert(v@.subrange(0, j as int) =~= v@);
    while j > 0 && v[j - 1] == c
        invariant
            j <= v@.len(),
            trim_end_of(v@, c) == trim_end_of(v@.subrange(0, j as int), c),
        decreases j,
    {
        assert(v@.subrange(0, j as int).drop_last() =~= v@.subrange(0, j - 1));
        j = j - 1;
    }
    text_range(&v, 0, j)
}

//-- Lists ------------------------------------------------------------------------
/// The parts with `sep` between them.
pub open spec fn joined(parts: Seq<Seq<char>>, sep: Seq<char>) -> Seq<char>
    decreases parts.len(),
{
    if parts.len() == 0 {
        Seq::empty()
    } else if parts.len() == 1 {
        parts[0]
    } else {
        joined(parts.drop_last(), sep) + sep + parts.last()
    }
}

/// The parts with `sep` between them.
pub fn join(parts: &Vec<String>, sep: &str) -> (r: String)
    ensures
        r@ == joined(parts.deep_view(), sep@),
{
    let mut out = String::new();
    let ghost all = parts.deep_view();
    let mut i: usize = 0;
    assert(all.take(0) =~= Seq::<Seq<char>>::empty());
    assert(out@ =~= joined(all.take(0), sep@));
    while i < parts.len()
        invariant
            i <= parts@.len(),
            all == parts.deep_view(),
            out@ == joined(all.take(i as int), sep@),
        decreases parts@.len() - i,
    {
        assert(all.take(i + 1).drop_last() =~= all.take(i as int));
        assert(all[i as int] == parts@[i as int]@);
        if i > 0 {
            out.append(sep);
        }
        out.append(parts[i].as_str());
        i = i + 1;
        assert(out@ =~= joined(all.take(i as int), sep@));
    }
    assert(all.take(all.len() as int) =~= all);
    out
}

/// The text, or another where there is none.
pub open spec fn text_or(s: Option<String>, other: Seq<char>) -> Seq<char> {
    match s {
        Some(t) => t@,
        None => other,
    }
}

/// Appends the text, or another where there is none.
pub fn push_or(out: &mut String, s: &Option<String>, other: &str)
    ensures
        final(out)@ == old(out)@ + text_or(*s, other@),
{
    match s {
        Some(t) => out.append(t.as_str()),
        None => out.append(other),
    }
}

/// Whether the texts stand in ascending order, as [`text_less`] has it.
pub open spec fn sorted(v: Seq<Seq<char>>) -> bool {
    forall|i: int, j: int| 0 <= i < j < v.len() ==> !text_less(#[trigger] v[j], #[trigger] v[i])
}

proof fn lemma_less_total(a: Seq<char>, b: Seq<char>)
    ensures
        text_less(a, b) ==> !text_less(b, a),
        !text_less(a, b) && !text_less(b, a) ==> a == b,
    decreases a.len(),
{
    if a.len() > 0 && b.len() > 0 && a[0] == b[0] {
        lemma_less_total(a.drop_first(), b.drop_first());
        if a.drop_first() == b.drop_first() {
            assert(a =~= seq![a[0]] + a.drop_first());
            assert(b =~= seq![b[0]] + b.drop_first());
        }
    } else if a.len() == 0 && b.len() == 0 {
        assert(a =~= b);
    }
}

proof fn lemma_less_transitive(a: Seq<char>, b: Seq<char>, c: Seq<char>)
    requires
        !text_less(b, a),
        !text_less(c, b),
    ensures
        !text_less(c, a),
    decreases a.len(),
{
    if a.len() > 0 && b.len() > 0 && c.len() > 0 && a[0] == b[0] && b[0] == c[0] {
        lemma_less_transitive(a.drop_first(), b.drop_first(), c.drop_first());
    }
}

/// Sorts texts in ascending order.
pub fn sort(v: &mut Vec<String>)
    ensures
        sorted(final(v).deep_view()),
        final(v)@.to_multiset() == old(v)@.to_multiset(),
{
    let mut out: Vec<String> = Vec::new();
    let ghost start = v@;
    assert(start.subrange(0, start.len() as int) =~= start);
    proof {
        vstd::seq_lib::lemma_multiset_commutative(out@, v@);
        assert(out@ + v@ =~= v@);
    }
    while v.len() > 0
        invariant
            sorted(out.deep_view()),
            (out@ + v@).to_multiset() == start.to_multiset(),
        decreases v@.len(),
    {
        let ghost before = v@;
        let ghost placed = out@;
        match v.pop() {
            None => {},
            Some(s) => {
                let mut k: usize = out.len();
                while k > 0 && precedes(s.as_str(), out[k - 1].as_str())
                    invariant
                        k <= out@.len(),
                        out@ == placed,
                        forall|i: int| k <= i < out@.len() ==> text_less(s@, #[trigger] out@[i]@),
                    decreases k,
                {
                    k = k - 1;
                }
                let ghost added = s;
                let ghost views = out.deep_view();
                out.insert(k, s);
                proof {
                    lemma_insert_keeps(placed, v@, k as int, added);
                    assert(before =~= v@.push(added));
                    assert(out.deep_view() =~= views.insert(k as int, added@));
                    let w = out.deep_view();
                    assert forall|i: int, j: int| 0 <= i < j < w.len() implies !text_less(
                        #[trigger] w[j],
                        #[trigger] w[i],
                    ) by {
                        if i == k {
                            assert(text_less(added@, placed[j - 1]@));
                            lemma_less_total(added@, placed[j - 1]@);
                        } else if j == k {
                            assert(w[i] == views[i]);
                            assert(!text_less(added@, placed[k - 1]@));
                            if i < k - 1 {
                                assert(!text_less(views[k - 1], views[i]));
                                lemma_less_transitive(views[i], views[k - 1], added@);
                            }
                        } else {
                            let a = if i < k {
                                i
                            } else {
                                i - 1
                            };
                            let b = if j < k {
                                j
                            } else {
                                j - 1
                            };
                            assert(w[i] == views[a]);
                            assert(w[j] == views[b]);
                        }
                    }
                }
            },
        }
    }
    assert(out@ + v@ =~= out@);
    *v = out;
}

/// Moving the last of `rest` into `placed` keeps the elements of both.
proof fn lemma_insert_keeps(placed: Seq<String>, rest: Seq<String>, k: int, s: String)
    requires
        0 <= k <= placed.len(),
    ensures
        (placed.insert(k, s) + rest).to_multiset() == (placed + rest.push(s)).to_multiset(),
{
    broadcast use vstd::seq_lib::group_to_multiset_ensures;

    let a = placed.insert(k, s);
    vstd::seq_lib::to_multiset_insert(placed, k, s);
    vstd::seq_lib::lemma_multiset_commutative(a, rest);
    vstd::seq_lib::lemma_multiset_commutative(placed, rest.push(s));
    assert(a.to_multiset() =~= placed.to_multiset().insert(s));
    assert((a + rest).to_multiset() =~= (placed + rest.push(s)).to_multiset());
}

//-- Numbers ----------------------------------------------------------------------
/// The digit for `n`, below sixteen, in lower case.
pub open spec fn digit_char(n: nat) -> char {
    if n < 10 {
        (('0' as u32) + n) as char
    } else {
        (('a' as u32) + n - 10) as char
    }
}

/// The digit for `n`, below sixteen, in lower case.
pub fn digit(n: u64) -> (c: char)
    requires
        n < 16,
    ensures
        c == digit_char(n as nat),
{
    if n < 10 {
        (48u8 + n as u8) as char
    } else {
        (97u8 + (n as u8 - 10)) as char
    }
}

/// `n` in decimal.
pub open spec fn decimal(n: nat) -> Seq<char>
    decreases n,
{
    if n < 10 {
        seq![digit_char(n)]
    } else {
        decimal(n / 10).push(digit_char(n % 10))
    }
}

/// `n` in decimal, with a minus sign where it is negative.
pub open spec fn signed_decimal(n: int) -> Seq<char> {
    if n < 0 {
        seq!['-'] + decimal((-n) as nat)
    } else {
        decimal(n as nat)
    }
}

/// Appends `n` in decimal.
pub fn push_decimal(out: &mut String, n: u64)
    ensures
        final(out)@ == old(out)@ + decimal(n as nat),
    decreases n,
{
    if n >= 10 {
        push_decimal(out, n / 10);
    }
    out.push(digit(n % 10));
    assert(out@ =~= old(out)@ + decimal(n as nat));
}

/// Appends `n` in decimal, with a minus sign where it is negative.
pub fn push_signed(out: &mut String, n: i64)
    ensures
        final(out)@ == old(out)@ + signed_decimal(n as int),
{
    if n < 0 {
        out.push('-');
        let magnitude: u64 = if n == i64::MIN {
            9223372036854775808u64
        } else {
            (-n) as u64
        };
        push_decimal(out, magnitude);
        assert(out@ =~= old(out)@ + signed_decimal(n as int));
    } else {
        push_decimal(out, n as u64);
    }
}

/// The lowest `width` hexadecimal digits of `n`, in lower case.
pub open spec fn hex_digits(n: nat, width: nat) -> Seq<char>
    decreases width,
{
    if width == 0 {
        Seq::empty()
    } else {
        hex_digits(n / 16, (width - 1) as nat).push(digit_char(n % 16))
    }
}

/// Appends the lowest `width` hexadecimal digits of `n`.
pub fn push_hex(out: &mut String, n: u64, width: usize)
    ensures
        final(out)@ == old(out)@ + hex_digits(n as nat, width as nat),
    decreases width,
{
    if width > 0 {
        push_hex(out, n / 16, width - 1);
        out.push(digit(n % 16));
    }
    assert(out@ =~= old(out)@ + hex_digits(n as nat, width as nat));
}

/// What `c` is worth as a digit of base `radix`, in either case.
pub open spec fn digit_value(c: char, radix: nat) -> Option<nat> {
    let n = if '0' <= c <= '9' {
        Some((c as int - '0' as int) as nat)
    } else if 'a' <= c <= 'z' {
        Some((c as int - 'a' as int + 10) as nat)
    } else if 'A' <= c <= 'Z' {
        Some((c as int - 'A' as int + 10) as nat)
    } else {
        None
    };
    match n {
        Some(d) if d < radix => Some(d),
        _ => None,
    }
}

/// The number written by the digits `s`; a string of no digits is worth zero.
pub open spec fn digits_value(s: Seq<char>, radix: nat) -> Option<nat>
    decreases s.len(),
{
    if s.len() == 0 {
        Some(0)
    } else {
        match (digits_value(s.drop_last(), radix), digit_value(s.last(), radix)) {
            (Some(high), Some(low)) => Some(high * radix + low),
            _ => None,
        }
    }
}

/// An unsigned number of base `radix` up to `max`: at least one digit, with an
/// optional plus sign before them.
pub open spec fn parsed_number(s: Seq<char>, radix: nat, max: nat) -> Option<nat> {
    let digits = if s.len() > 0 && s[0] == '+' {
        s.skip(1)
    } else {
        s
    };
    match digits_value(digits, radix) {
        Some(n) if digits.len() > 0 && n <= max => Some(n),
        _ => None,
    }
}

/// A number in decimal is made of digits, and reads back as that number.
pub(crate) proof fn lemma_decimal(n: nat)
    ensures
        decimal(n).len() >= 1,
        digits_value(decimal(n), 10) == Some(n),
        forall|i: int| 0 <= i < decimal(n).len() ==> '0' <= #[trigger] decimal(n)[i] <= '9',
    decreases n,
{
    if n < 10 {
        assert(decimal(n).drop_last() =~= Seq::<char>::empty());
        assert(digits_value(Seq::<char>::empty(), 10) == Some(0nat));
        assert(decimal(n).last() == digit_char(n));
    } else {
        lemma_decimal(n / 10);
        assert(decimal(n).drop_last() =~= decimal(n / 10));
        assert(decimal(n).last() == digit_char(n % 10));
    }
}

/// A number in decimal is read back by [`parse_number`].
pub(crate) proof fn lemma_decimal_parses(n: nat, max: nat)
    requires
        n <= max,
    ensures
        parsed_number(decimal(n), 10, max) == Some(n),
{
    lemma_decimal(n);
    assert('0' <= decimal(n)[0]);
}

fn value_of_digit(c: char, radix: u64) -> (r: Option<u64>)
    requires
        radix <= 36,
    ensures
        match r {
            Some(d) => digit_value(c, radix as nat) == Some(d as nat) && d < radix,
            None => digit_value(c, radix as nat) is None,
        },
{
    let d: u64 = if '0' <= c && c <= '9' {
        c as u64 - '0' as u64
    } else if 'a' <= c && c <= 'z' {
        c as u64 - 'a' as u64 + 10
    } else if 'A' <= c && c <= 'Z' {
        c as u64 - 'A' as u64 + 10
    } else {
        return None;
    };
    if d < radix {
        Some(d)
    } else {
        None
    }
}

/// Digits appended to a number do not make it smaller, nor mend a bad digit.
proof fn lemma_digits_grow(s: Seq<char>, k: int, radix: nat)
    requires
        0 <= k <= s.len(),
        radix >= 1,
    ensures
        digits_value(s, radix) is Some ==> digits_value(s.take(k), radix) is Some
            && digits_value(s.take(k), radix)->0 <= digits_value(s, radix)->0,
    decreases s.len() - k,
{
    if k < s.len() {
        lemma_digits_grow(s, k + 1, radix);
        assert(s.take(k + 1).drop_last() =~= s.take(k));
        if digits_value(s, radix) is Some {
            let high = digits_value(s.take(k), radix)->0;
            assert(high <= high * radix) by (nonlinear_arith)
                requires
                    radix >= 1,
            ;
        }
    } else {
        assert(s.take(k) =~= s);
    }
}

/// Reads an unsigned number of base `radix` up to `max`.
pub fn parse_number(s: &str, radix: u64, max: u64) -> (r: Option<u64>)
    requires
        1 <= radix <= 36,
    ensures
        match r {
            Some(n) => parsed_number(s@, radix as nat, max as nat) == Some(n as nat),
            None => parsed_number(s@, radix as nat, max as nat) is None,
        },
{
    let v = chars_of(s);
    let start: usize = if v.len() > 0 && v[0] == '+' {
        1
    } else {
        0
    };
    let ghost digits = v@.skip(start as int);
    assert(start == 0 ==> digits =~= s@);
    if start == v.len() {
        return None;
    }
    let mut n: u64 = 0;
    let mut i: usize = start;
    assert(digits.take(0) =~= Seq::<char>::empty());
    while i < v.len()
        invariant
            start <= i <= v@.len(),
            start < v@.len(),
            1 <= radix <= 36,
            n <= max,
            digits == v@.skip(start as int),
            parsed_number(s@, radix as nat, max as nat) == (match digits_value(
                digits,
                radix as nat,
            ) {
                Some(k) if digits.len() > 0 && k <= max => Some(k),
                _ => None,
            }),
            digits_value(digits.take(i - start), radix as nat) == Some(n as nat),
        decreases v@.len() - i,
    {
        let ghost k = i - start + 1;
        assert(digits.take(k).drop_last() =~= digits.take(k - 1));
        assert(digits.take(k).last() == v@[i as int]);
        proof {
            lemma_digits_grow(digits, k, radix as nat);
        }
        match value_of_digit(v[i], radix) {
            None => {
                return None;
            },
            Some(d) => {
                assert(n as u128 * radix as u128 <= u64::MAX as u128 * 36) by (nonlinear_arith)
                    requires
                        n <= u64::MAX,
                        radix <= 36,
                ;
                let next: u128 = n as u128 * radix as u128 + d as u128;
                if next > max as u128 {
                    return None;
                }
                n = next as u64;
            },
        }
        i = i + 1;
    }
    assert(digits.take(digits.len() as int) =~= digits);
    Some(n)
}

//-- Pieces -----------------------------------------------------------------------
/// Splitting loses nothing: the pieces hold no separator, and with separators between them
/// they are the text again.
pub proof fn pieces_make_up_the_text(s: Seq<char>, c: char)
    ensures
        pieces(s, c).len() >= 1,
        joined(pieces(s, c), seq![c]) == s,
        forall|i: int, j: int|
            0 <= i < pieces(s, c).len() && 0 <= j < pieces(s, c)[i].len() ==> #[trigger] pieces(
                s,
                c,
            )[i][j] != c,
    decreases s.len(),
{
    lemma_first_index(s, c);
    match first_index(s, c) {
        None => {
            assert(pieces(s, c) =~= seq![s]);
            assert(seq![s].drop_last() =~= Seq::<Seq<char>>::empty());
        },
        Some(i) => {
            let head = s.take(i);
            let rest = s.skip(i + 1);
            pieces_make_up_the_text(rest, c);
            assert(pieces(s, c) =~= seq![head] + pieces(rest, c));
            lemma_joined_front(head, pieces(rest, c), seq![c]);
            assert(s =~= head + seq![c] + rest);
            assert forall|k: int, j: int|
                0 <= k < pieces(s, c).len() && 0 <= j < pieces(s, c)[k].len() implies #[trigger] pieces(
                s,
                c,
            )[k][j] != c by {
                if k == 0 {
                    assert(pieces(s, c)[0][j] == s[j]);
                } else {
                    assert(pieces(s, c)[k] == pieces(rest, c)[k - 1]);
                }
            }
        },
    }
}

proof fn lemma_joined_front(head: Seq<char>, rest: Seq<Seq<char>>, sep: Seq<char>)
    requires
        rest.len() >= 1,
    ensures
        joined(seq![head] + rest, sep) == head + sep + joined(rest, sep),
    decreases rest.len(),
{
    let all = seq![head] + rest;
    assert(all.drop_last() =~= seq![head] + rest.drop_last());
    assert(all.last() == rest.last());
    if rest.len() > 1 {
        lemma_joined_front(head, rest.drop_last(), sep);
        assert(joined(all, sep) =~= head + sep + joined(rest, sep));
    } else {
        assert(all.drop_last() =~= seq![head]);
        assert(joined(seq![head], sep) =~= head);
        assert(joined(rest, sep) =~= rest.last());
        assert(joined(all, sep) =~= head + sep + rest.last());
    }
}

/// What follows a text up to the next separator belongs to its last piece.
pub(crate) proof fn lemma_pieces_grow(s: Seq<char>, t: Seq<char>, c: char)
    requires
        forall|i: int| 0 <= i < t.len() ==> #[trigger] t[i] != c,
    ensures
        pieces(s, c).len() >= 1,
        pieces(s + t, c) == pieces(s, c).drop_last().push(pieces(s, c).last() + t),
    decreases s.len(),
{
    lemma_first_index(s, c);
    lemma_first_index(s + t, c);
    let all = s + t;
    match first_index(s, c) {
        None => {
            assert forall|j: int| 0 <= j < all.len() implies all[j] != c by {
                if j >= s.len() {
                    assert(all[j] == t[j - s.len()]);
                }
            }
            assert(pieces(s, c) =~= seq![s]);
            assert(pieces(all, c) =~= seq![s + t]);
            assert(seq![s].drop_last() =~= Seq::<Seq<char>>::empty());
        },
        Some(i) => {
            assert(all[i] == c);
            assert(first_index(all, c) == Some(i));
            assert(all.take(i) =~= s.take(i));
            assert(all.skip(i + 1) =~= s.skip(i + 1) + t);
            let rest = s.skip(i + 1);
            lemma_pieces_grow(rest, t, c);
            let p = pieces(rest, c);
            assert(pieces(s, c) =~= seq![s.take(i)] + p);
            assert((seq![s.take(i)] + p).drop_last() =~= seq![s.take(i)] + p.drop_last());
            assert(pieces(all, c) =~= seq![s.take(i)] + p.drop_last().push(p.last() + t));
            assert(pieces(all, c) =~= pieces(s, c).drop_last().push(pieces(s, c).last() + t));
        },
    }
}

/// A separator at the end of a text opens another piece.
pub(crate) proof fn lemma_pieces_end(s: Seq<char>, c: char)
    ensures
        pieces(s.push(c), c) == pieces(s, c).push(Seq::empty()),
    decreases s.len(),
{
    lemma_first_index(s, c);
    let all = s.push(c);
    lemma_first_index(all, c);
    lemma_first_index(Seq::empty(), c);
    assert(pieces(Seq::empty(), c) =~= seq![Seq::<char>::empty()]);
    match first_index(s, c) {
        None => {
            assert(all[s.len() as int] == c);
            assert(first_index(all, c) == Some(s.len() as int));
            assert(all.take(s.len() as int) =~= s);
            assert(all.skip(s.len() as int + 1) =~= Seq::empty());
            assert(pieces(all, c) =~= seq![s].push(Seq::empty()));
        },
        Some(i) => {
            assert(all[i] == c);
            assert(first_index(all, c) == Some(i));
            assert(all.take(i) =~= s.take(i));
            assert(all.skip(i + 1) =~= s.skip(i + 1).push(c));
            lemma_pieces_end(s.skip(i + 1), c);
            assert(pieces(all, c) =~= pieces(s, c).push(Seq::empty()));
        },
    }
}

/// The pieces of two texts with a separator between them are those of the one and then
/// those of the other.
pub proof fn pieces_follow_one_another(a: Seq<char>, b: Seq<char>, c: char)
    ensures
        pieces(a + seq![c] + b, c) == pieces(a, c) + pieces(b, c),
    decreases a.len(),
{
    let all = a + seq![c] + b;
    lemma_first_index(a, c);
    lemma_first_index(all, c);
    match first_index(a, c) {
        None => {
            let n = a.len() as int;
            assert(all[n] == c);
            assert(forall|j: int| 0 <= j < n ==> all[j] == a[j]);
            assert(first_index(all, c) == Some(n));
            assert(all.take(n) =~= a);
            assert(all.skip(n + 1) =~= b);
            assert(pieces(a, c) =~= seq![a]);
        },
        Some(i) => {
            assert(all[i] == a[i]);
            assert(forall|j: int| 0 <= j < i ==> all[j] == a[j]);
            assert(first_index(all, c) == Some(i));
            assert(all.take(i) =~= a.take(i));
            assert(all.skip(i + 1) =~= a.skip(i + 1) + seq![c] + b);
            pieces_follow_one_another(a.skip(i + 1), b, c);
            assert(pieces(all, c) =~= pieces(a, c) + pieces(b, c));
        },
    }
}

/// A text without the separator is one piece.
pub proof fn texts_without_separators_are_whole(s: Seq<char>, c: char)
    requires
        forall|i: int| 0 <= i < s.len() ==> #[trigger] s[i] != c,
    ensures
        pieces(s, c) == seq![s],
{
    lemma_first_index(s, c);
}

/// A text is cut at the first separator, and from the end at the last: the two parts make
/// up the text again, and the part on the near side holds no separator.
pub proof fn cuts_are_where_they_should_be(s: Seq<char>, c: char)
    ensures
        match cut_first(s, c) {
            Some((a, b)) => s == a + seq![c] + b && forall|i: int|
                0 <= i < a.len() ==> #[trigger] a[i] != c,
            None => forall|i: int| 0 <= i < s.len() ==> #[trigger] s[i] != c,
        },
        match cut_last(s, c) {
            Some((a, b)) => s == a + seq![c] + b && forall|i: int|
                0 <= i < b.len() ==> #[trigger] b[i] != c,
            None => forall|i: int| 0 <= i < s.len() ==> #[trigger] s[i] != c,
        },
{
    lemma_first_index(s, c);
    lemma_last_index(s, c);
    if let Some((a, b)) = cut_first(s, c) {
        assert(s =~= a + seq![c] + b);
    }
    if let Some((a, b)) = cut_last(s, c) {
        assert(s =~= a + seq![c] + b);
        let at = last_index(s, c)->0;
        assert forall|i: int| 0 <= i < b.len() implies #[trigger] b[i] != c by {
            assert(b[i] == s[at + 1 + i]);
        }
    }
}

//-- White space and order --------------------------------------------------------
/// White space is what Unicode says it is: these characters and no others.
pub proof fn white_space_is_unicodes(c: char)
    ensures
        white(c) <==> seq![
            9u32, 10, 11, 12, 13, 32, 0x85, 0xa0, 0x1680, 0x2000, 0x2001, 0x2002, 0x2003, 0x2004,
            0x2005, 0x2006, 0x2007, 0x2008, 0x2009, 0x200a, 0x2028, 0x2029, 0x202f, 0x205f, 0x3000,
        ].contains(c as u32),
{
    let all = seq![
        9u32, 10, 11, 12, 13, 32, 0x85, 0xa0, 0x1680, 0x2000, 0x2001, 0x2002, 0x2003, 0x2004,
        0x2005, 0x2006, 0x2007, 0x2008, 0x2009, 0x200a, 0x2028, 0x2029, 0x202f, 0x205f, 0x3000,
    ];
    let n = c as u32;
    if 9 <= n <= 13 {
        assert(all[n - 9] == n);
    } else if 0x2000 <= n <= 0x200a {
        assert(all[n - 0x2000 + 9] == n);
    } else {
        assert(all[5] == 32 && all[6] == 0x85 && all[7] == 0xa0 && all[8] == 0x1680);
        assert(all[20] == 0x2028 && all[21] == 0x2029 && all[22] == 0x202f && all[23] == 0x205f
            && all[24] == 0x3000);
    }
}

/// Trimming takes the white space around a text away and nothing else: what is left is a
/// part of the text, with white space alone before and after it, and none at its ends.
pub proof fn trimming_loses_white_space_only(s: Seq<char>)
    ensures
        exists|lo: int, hi: int|
            0 <= lo <= hi <= s.len() && #[trigger] s.subrange(lo, hi) == trimmed(s) && (forall|
                i: int,
            |
                0 <= i < lo || hi <= i < s.len() ==> white(#[trigger] s[i])) && (lo < hi ==> !white(
                s[lo],
            ) && !white(s[hi - 1])),
{
    let a = trim_start(s);
    lemma_trim_start_cut(s);
    lemma_trim_end_cut(a);
    lemma_trim_start(s);
    lemma_trim_end(a);
    let lo = s.len() - a.len();
    let hi = lo + trimmed(s).len();
    assert(a =~= s.skip(lo));
    assert(s.subrange(lo, hi) =~= trimmed(s));
    assert forall|i: int| 0 <= i < lo || hi <= i < s.len() implies white(#[trigger] s[i]) by {
        if i >= hi {
            assert(s[i] == a[i - lo]);
        }
    }
    if lo < hi {
        assert(trimmed(s)[0] == s[lo]);
        assert(trimmed(s).last() == s[hi - 1]);
        lemma_trimmed(s);
    }
}

proof fn lemma_trim_start_cut(s: Seq<char>)
    ensures
        trim_start(s).len() <= s.len(),
        trim_start(s) == s.skip(s.len() - trim_start(s).len()),
        forall|i: int| 0 <= i < s.len() - trim_start(s).len() ==> white(#[trigger] s[i]),
    decreases s.len(),
{
    if s.len() > 0 && white(s[0]) {
        let rest = s.drop_first();
        lemma_trim_start_cut(rest);
        assert(trim_start(s) =~= s.skip(s.len() - trim_start(s).len()));
        assert forall|i: int| 0 <= i < s.len() - trim_start(s).len() implies white(
            #[trigger] s[i],
        ) by {
            if i > 0 {
                assert(s[i] == rest[i - 1]);
            }
        }
    } else {
        assert(s.skip(0) =~= s);
    }
}

proof fn lemma_trim_end_cut(s: Seq<char>)
    ensures
        trim_end(s).len() <= s.len(),
        trim_end(s) == s.take(trim_end(s).len() as int),
        forall|i: int| trim_end(s).len() <= i < s.len() ==> white(#[trigger] s[i]),
    decreases s.len(),
{
    if s.len() > 0 && white(s.last()) {
        let rest = s.drop_last();
        lemma_trim_end_cut(rest);
        assert(trim_end(s) =~= s.take(trim_end(s).len() as int));
        assert forall|i: int| trim_end(s).len() <= i < s.len() implies white(#[trigger] s[i]) by {
            if i < s.len() - 1 {
                assert(s[i] == rest[i]);
            }
        }
    } else {
        assert(s.take(s.len() as int) =~= s);
    }
}

/// Taking a character off the end of a text takes all of it, and nothing else: the text is
/// what is left, which does not end in that character, and then that character alone.
pub proof fn trimming_the_end_takes_one_character(s: Seq<char>, c: char)
    ensures
        trim_end_of(s, c).len() <= s.len(),
        trim_end_of(s, c) == s.take(trim_end_of(s, c).len() as int),
        forall|i: int| trim_end_of(s, c).len() <= i < s.len() ==> #[trigger] s[i] == c,
        trim_end_of(s, c).len() > 0 ==> trim_end_of(s, c).last() != c,
    decreases s.len(),
{
    if s.len() > 0 && s.last() == c {
        let rest = s.drop_last();
        trimming_the_end_takes_one_character(rest, c);
        assert(trim_end_of(s, c) =~= s.take(trim_end_of(s, c).len() as int));
        assert forall|i: int| trim_end_of(s, c).len() <= i < s.len() implies #[trigger] s[i]
            == c by {
            if i < s.len() - 1 {
                assert(s[i] == rest[i]);
            }
        }
    } else {
        assert(s.take(s.len() as int) =~= s);
    }
}

/// Texts are ordered by the first place where they differ; a text comes before those that
/// go on from it.
pub proof fn texts_are_ordered_by_their_first_difference(s: Seq<char>, t: Seq<char>)
    ensures
        text_less(s, t) <==> exists|k: int|
            #![trigger s.take(k)]
            0 <= k <= s.len() && k < t.len() && s.take(k) == t.take(k) && (k == s.len() || s[k]
                < t[k]),
    decreases s.len(),
{
    if t.len() > 0 && s.len() > 0 {
        let a = s.drop_first();
        let b = t.drop_first();
        texts_are_ordered_by_their_first_difference(a, b);
        if s[0] == t[0] {
            if text_less(a, b) {
                let k = choose|k: int|
                    #![trigger a.take(k)]
                    0 <= k <= a.len() && k < b.len() && a.take(k) == b.take(k) && (k == a.len()
                        || a[k] < b[k]);
                assert forall|i: int| 0 <= i < k + 1 implies s[i] == t[i] by {
                    if i > 0 {
                        assert(a.take(k)[i - 1] == b.take(k)[i - 1]);
                    }
                }
                assert(s.take(k + 1) =~= t.take(k + 1));
            }
            if exists|k: int|
                #![trigger s.take(k)]
                0 <= k <= s.len() && k < t.len() && s.take(k) == t.take(k) && (k == s.len() || s[k]
                    < t[k]) {
                let k = choose|k: int|
                    #![trigger s.take(k)]
                    0 <= k <= s.len() && k < t.len() && s.take(k) == t.take(k) && (k == s.len()
                        || s[k] < t[k]);
                assert(k > 0);
                assert forall|i: int| 0 <= i < k - 1 implies a[i] == b[i] by {
                    assert(s.take(k)[i + 1] == t.take(k)[i + 1]);
                }
                assert(a.take(k - 1) =~= b.take(k - 1));
            }
        } else {
            if s[0] < t[0] {
                assert(s.take(0) =~= t.take(0));
            }
            assert forall|k: int|
                0 <= k <= s.len() && k < t.len() && #[trigger] s.take(k) == t.take(k) implies k
                == 0 by {
                if k > 0 {
                    assert(s.take(k)[0] == t.take(k)[0]);
                }
            }
        }
    } else if t.len() > 0 {
        assert(s.take(0) =~= t.take(0));
    }
}

//-- Numbers as texts -------------------------------------------------------------
/// A number is written by its digits, the last one for what is left over by ten, without a
/// zero in front.
pub proof fn numbers_are_written_digit_by_digit(n: nat, d: nat)
    requires
        d < 10,
    ensures
        decimal(d) == seq![(48 + d) as char],
        n > 0 ==> decimal(10 * n + d) == decimal(n) + seq![(48 + d) as char],
        n > 0 ==> decimal(n)[0] != '0',
        signed_decimal(n as int) == decimal(n),
        n > 0 ==> signed_decimal(-(n as int)) == "-"@ + decimal(n),
    decreases n,
{
    reveal_strlit("-");
    assert(decimal(d) =~= seq![(48 + d) as char]);
    if n > 0 {
        assert((10 * n + d) / 10 == n && (10 * n + d) % 10 == d);
        assert(decimal(10 * n + d) =~= decimal(n) + seq![(48 + d) as char]);
        if n >= 10 {
            numbers_are_written_digit_by_digit(n / 10, n % 10);
            lemma_decimal(n / 10);
        }
        assert(seq!['-'] =~= "-"@);
    }
}

/// Numbers are read by the value of their digits, each in its place, up to a bound that is
/// still read; one digit at least, and a plus sign at most in front of them.
pub proof fn numbers_are_read_digit_by_digit(s: Seq<char>, c: char, max: nat)
    ensures
        digits_value(Seq::<char>::empty(), 10) == Some(0nat),
        '0' <= c <= '9' ==> digits_value(s.push(c), 10) == (match digits_value(s, 10) {
            Some(n) => Some((10 * n + (c as u32 - 48)) as nat),
            None => None,
        }),
        !('0' <= c <= '9') ==> digits_value(s.push(c), 10) is None,
        s.len() > 0 && s[0] != '+' ==> parsed_number(s, 10, max) == (match digits_value(s, 10) {
            Some(n) if n <= max => Some(n),
            _ => None,
        }),
        s.len() > 0 && s[0] != '+' ==> parsed_number("+"@ + s, 10, max) == parsed_number(
            s,
            10,
            max,
        ),
        parsed_number(Seq::<char>::empty(), 10, max) is None,
{
    reveal_strlit("+");
    assert(s.push(c).drop_last() =~= s);
    assert(("+"@ + s).skip(1) =~= s);
}

/// Hexadecimal digits are those of the number's sixteenths, from the highest on: ten digits,
/// and then the letters to `f`; and they are read by their value, in either case.
pub proof fn hexadecimal_is_written_digit_by_digit(n: nat, d: nat, width: nat, s: Seq<char>)
    requires
        d < 16,
    ensures
        hex_digits(n, 0) == Seq::<char>::empty(),
        hex_digits(16 * n + d, width + 1) == hex_digits(n, width).push(
            if d < 10 {
                (48 + d) as char
            } else {
                (87 + d) as char
            },
        ),
        digits_value(
            s.push(
                if d < 10 {
                    (48 + d) as char
                } else {
                    (87 + d) as char
                },
            ),
            16,
        ) == (match digits_value(s, 16) {
            Some(v) => Some((16 * v + d) as nat),
            None => None,
        }),
{
    assert((16 * n + d) / 16 == n && (16 * n + d) % 16 == d);
    let c = if d < 10 {
        (48 + d) as char
    } else {
        (87 + d) as char
    };
    assert(s.push(c).drop_last() =~= s);
    assert(c as u32 == if d < 10 {
        48 + d
    } else {
        87 + d
    });
    assert(digit_value(c, 16) == Some(d));
}

/// Texts are in order where each comes before the next or is the same.
pub proof fn sorted_texts_are_in_order(v: Seq<Seq<char>>)
    ensures
        sorted(v) <==> forall|i: int, j: int|
            0 <= i < j < v.len() ==> text_less(#[trigger] v[i], #[trigger] v[j]) || v[i] == v[j],
{
    if sorted(v) {
        assert forall|i: int, j: int| 0 <= i < j < v.len() implies text_less(
            #[trigger] v[i],
            #[trigger] v[j],
        ) || v[i] == v[j] by {
            lemma_less_total(v[i], v[j]);
        }
    }
    if forall|i: int, j: int|
        0 <= i < j < v.len() ==> text_less(#[trigger] v[i], #[trigger] v[j]) || v[i] == v[j] {
        assert forall|i: int, j: int| 0 <= i < j < v.len() implies !text_less(
            #[trigger] v[j],
            #[trigger] v[i],
        ) by {
            lemma_less_total(v[i], v[j]);
            lemma_less_total(v[j], v[i]);
        }
    }
}

/// A list is its parts with the separator between each and the next.
pub proof fn lists_hold_their_parts(parts: Seq<Seq<char>>, last: Seq<char>, sep: Seq<char>)
    ensures
        joined(Seq::<Seq<char>>::empty(), sep) == Seq::<char>::empty(),
        joined(seq![last], sep) == last,
        parts.len() > 0 ==> joined(parts.push(last), sep) == joined(parts, sep) + sep + last,
{
    assert(parts.push(last).drop_last() =~= parts);
}

/// What stands for a text that there may not be is that text where there is one.
pub proof fn texts_stand_for_themselves(s: Option<String>, other: Seq<char>)
    ensures
        s matches Some(t) ==> text_or(s, other) == t@,
        s is None ==> text_or(s, other) == other,
{
}

/// The letters of a hexadecimal number count the same in either case, and no other letter
/// counts.
pub proof fn hexadecimal_letters_count_in_either_case(s: Seq<char>, d: nat, c: char)
    ensures
        10 <= d < 16 ==> digits_value(s.push((55 + d) as char), 16) == digits_value(
            s.push((87 + d) as char),
            16,
        ),
        !('0' <= c <= '9' || 'a' <= c <= 'f' || 'A' <= c <= 'F') ==> digits_value(
            s.push(c),
            16,
        ) is None,
{
    assert(s.push(c).drop_last() =~= s);
    if 10 <= d < 16 {
        let upper = (55 + d) as char;
        let lower = (87 + d) as char;
        assert(s.push(upper).drop_last() =~= s);
        assert(s.push(lower).drop_last() =~= s);
        assert(upper as u32 == 55 + d && lower as u32 == 87 + d);
        assert(digit_value(upper, 16) == digit_value(lower, 16));
    }
}

} // verus!
