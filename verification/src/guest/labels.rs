//! The labels that a store gives out: each is one DNS label, and no two rows have the same.
use crate::text;
use vstd::prelude::*;
use vstd::utf8::encode_utf8;

verus! {

/// The `n`th label to try for a name: the name itself, then `name-2`, `name-3`, …
pub open spec fn candidate(hostname: Seq<char>, n: nat) -> Seq<char> {
    if n == 1 {
        hostname
    } else {
        hostname + "-"@ + text::decimal(n)
    }
}

/// Whether a label is too long for a DNS label.
pub open spec fn too_long(label: Seq<char>) -> bool {
    encode_utf8(label).len() > 63
}

/// Whether another row than the `i`th has that label.
pub open spec fn taken(labels: Seq<Option<Seq<char>>>, i: int, label: Seq<char>) -> bool {
    exists|j: int| 0 <= j < labels.len() && j != i && #[trigger] labels[j] == Some(label)
}

/// Whether the first `n` candidates for a name all fit, and are all taken by others.
pub open spec fn all_taken(
    labels: Seq<Option<Seq<char>>>,
    i: int,
    hostname: Seq<char>,
    n: nat,
) -> bool {
    forall|m: nat|
        1 <= m <= n ==> !too_long(#[trigger] candidate(hostname, m)) && taken(
            labels,
            i,
            candidate(hostname, m),
        )
}

/// Whether the `n`th candidate ends the search for the label of the `i`th row, with that
/// outcome: it is the first that nobody else has, or the first that is too long.
pub open spec fn ends_at(
    labels: Seq<Option<Seq<char>>>,
    i: int,
    hostname: Seq<char>,
    fallback: Seq<char>,
    label: Option<Seq<char>>,
    n: nat,
) -> bool {
    &&& n >= 1
    &&& all_taken(labels, i, hostname, (n - 1) as nat)
    &&& label == if too_long(candidate(hostname, n)) {
        if taken(labels, i, fallback) {
            None
        } else {
            Some(fallback)
        }
    } else {
        Some(candidate(hostname, n))
    }
    &&& label is Some ==> !taken(labels, i, label->0)
}

/// Whether a name comes to that label for the `i`th row: the first of its candidates that
/// nobody else has, or `fallback` once a candidate is too long. `None` where somebody else
/// has the fallback too.
pub open spec fn comes_to(
    labels: Seq<Option<Seq<char>>>,
    i: int,
    hostname: Seq<char>,
    fallback: Seq<char>,
    label: Option<Seq<char>>,
) -> bool {
    exists|n: nat| #[trigger] ends_at(labels, i, hostname, fallback, label, n)
}

fn is_taken(labels: &Vec<Option<String>>, i: usize, label: &str) -> (r: bool)
    ensures
        r == taken(labels.deep_view(), i as int, label@),
{
    let mut j: usize = 0;
    while j < labels.len()
        invariant
            j <= labels@.len(),
            forall|k: int|
                0 <= k < j && k != i ==> #[trigger] labels.deep_view()[k] != Some(label@),
        decreases labels@.len() - j,
    {
        if j != i {
            if let Some(h) = &labels[j] {
                if text::same_text(h.as_str(), label) {
                    assert(labels.deep_view()[j as int] == Some(label@));
                    return true;
                }
            }
        }
        j = j + 1;
    }
    false
}

fn nth_candidate(hostname: &str, n: u64) -> (r: String)
    ensures
        r@ == candidate(hostname@, n as nat),
{
    let mut out = text::copied(hostname);
    if n != 1 {
        out.append("-");
        text::push_decimal(&mut out, n);
    }
    out
}

proof fn lemma_candidates_differ(hostname: Seq<char>, m: nat, n: nat)
    requires
        1 <= m < n,
    ensures
        candidate(hostname, m) != candidate(hostname, n),
{
    reveal_strlit("-");
    let a = candidate(hostname, m);
    let b = candidate(hostname, n);
    text::lemma_decimal(n);
    text::lemma_decimal(m);
    if m == 1 {
        assert(b.len() > a.len());
    } else if a == b {
        let k = hostname.len() + 1;
        assert(a.skip(k as int) =~= text::decimal(m));
        assert(b.skip(k as int) =~= text::decimal(n));
    }
}

/// There are not more labels taken than there are other rows.
proof fn lemma_pigeonhole(labels: Seq<Option<Seq<char>>>, i: int, hostname: Seq<char>, n: nat)
    requires
        0 <= i < labels.len(),
        all_taken(labels, i, hostname, n),
    ensures
        n < labels.len(),
{
    // The row that has each candidate.
    let holder = |m: int|
        choose|j: int|
            0 <= j < labels.len() && j != i && #[trigger] labels[j] == Some(
                candidate(hostname, (m + 1) as nat),
            );
    let rows = Seq::new(n, holder);
    assert forall|m: int| 0 <= m < n implies 0 <= #[trigger] rows[m] < labels.len() && rows[m] != i
        && labels[rows[m]] == Some(candidate(hostname, (m + 1) as nat)) by {
        assert(taken(labels, i, candidate(hostname, (m + 1) as nat)));
    }
    assert forall|x: int, y: int| 0 <= x < y < n implies rows[x] != rows[y] by {
        lemma_candidates_differ(hostname, (x + 1) as nat, (y + 1) as nat);
    }
    let all = rows.push(i);
    assert(all.no_duplicates());
    all.unique_seq_to_set();
    let range = vstd::set_lib::set_int_range(0, labels.len() as int);
    vstd::set_lib::lemma_int_range(0, labels.len() as int);
    assert(all.to_set().subset_of(range)) by {
        assert forall|x: int| all.to_set().contains(x) implies range.contains(x) by {
            let k = all.index_of(x);
            if k < n {
                assert(all[k] == rows[k]);
            }
        }
    }
    vstd::set_lib::lemma_len_subset(all.to_set(), range);
}

/// The label that a name comes to for the `i`th row: the name, or `name-2`, `-3`, … if
/// taken, or `fallback` once a candidate is too long for a DNS label.
pub fn pick(labels: &Vec<Option<String>>, i: usize, hostname: &str, fallback: &str) -> (r: Option<
    String,
>)
    requires
        i < labels@.len(),
    ensures
        comes_to(labels.deep_view(), i as int, hostname@, fallback@, r.deep_view()),
{
    let rows: usize = labels.len();
    let ghost l = labels.deep_view();
    let mut n: u64 = 1;
    while n <= rows as u64
        invariant_except_break
            all_taken(l, i as int, hostname@, (n - 1) as nat),
        invariant
            l == labels.deep_view(),
            i < labels@.len(),
            rows == labels@.len(),
            1 <= n <= rows + 1,
        ensures
            all_taken(l, i as int, hostname@, (n - 1) as nat),
            n <= rows ==> too_long(candidate(hostname@, n as nat)),
        decreases rows + 1 - n,
    {
        let label = nth_candidate(hostname, n);
        if label.as_str().as_bytes().len() > 63 {
            // Max DNS label exceeded.
            break;
        }
        if !is_taken(labels, i, label.as_str()) {
            assert(ends_at(l, i as int, hostname@, fallback@, Some(label@), n as nat));
            return Some(label);
        }
        proof {
            assert forall|m: nat| 1 <= m <= n implies !too_long(#[trigger] candidate(hostname@, m))
                && taken(l, i as int, candidate(hostname@, m)) by {
                if m < n {
                    assert(m <= (n - 1) as nat);
                }
            }
            lemma_pigeonhole(l, i as int, hostname@, n as nat);
        }
        n = n + 1;
    }
    proof {
        lemma_pigeonhole(l, i as int, hostname@, (n - 1) as nat);
        assert(too_long(candidate(hostname@, n as nat)));
    }
    // Normal deduping has failed.
    if is_taken(labels, i, fallback) {
        assert(ends_at(l, i as int, hostname@, fallback@, None, n as nat));
        return None;
    }
    assert(ends_at(l, i as int, hostname@, fallback@, Some(fallback@), n as nat));
    Some(text::copied(fallback))
}

/// A label that is given out fits into a host name, and nobody else has it.
pub proof fn labels_fit_and_are_unique(
    labels: Seq<Option<Seq<char>>>,
    i: int,
    hostname: Seq<char>,
    fallback: Seq<char>,
    label: Seq<char>,
)
    requires
        comes_to(labels, i, hostname, fallback, Some(label)),
        !too_long(fallback),
    ensures
        !too_long(label),
        !taken(labels, i, label),
{
}

/// A name comes to one label alone, or to none.
pub proof fn names_come_to_one_label(
    labels: Seq<Option<Seq<char>>>,
    i: int,
    hostname: Seq<char>,
    fallback: Seq<char>,
    a: Option<Seq<char>>,
    b: Option<Seq<char>>,
)
    requires
        comes_to(labels, i, hostname, fallback, a),
        comes_to(labels, i, hostname, fallback, b),
    ensures
        a == b,
{
    let m = choose|n: nat| #[trigger] ends_at(labels, i, hostname, fallback, a, n);
    let n = choose|n: nat| #[trigger] ends_at(labels, i, hostname, fallback, b, n);
    // A candidate that ends the search is too long, or free: none before it is either.
    if m < n {
        assert(!too_long(candidate(hostname, m)) && taken(labels, i, candidate(hostname, m)));
    } else if n < m {
        assert(!too_long(candidate(hostname, n)) && taken(labels, i, candidate(hostname, n)));
    }
}

/// The names that are tried for a label are the name itself, and then the name with a dash and
/// a number from two on; each is tried only where every one before it is taken.
pub proof fn labels_are_numbered_from_two(
    labels: Seq<Option<Seq<char>>>,
    i: int,
    hostname: Seq<char>,
    fallback: Seq<char>,
    n: nat,
)
    requires
        n >= 2,
        comes_to(labels, i, hostname, fallback, Some(hostname + "-"@ + text::decimal(n))),
        hostname + "-"@ + text::decimal(n) != fallback,
    ensures
        taken(labels, i, hostname),
        forall|m: nat|
            2 <= m < n ==> taken(labels, i, hostname + "-"@ + #[trigger] text::decimal(m)),
        encode_utf8(hostname + "-"@ + text::decimal(n)).len() <= 63,
{
    let label = hostname + "-"@ + text::decimal(n);
    let k = choose|k: nat| #[trigger] ends_at(labels, i, hostname, fallback, Some(label), k);
    assert(label == candidate(hostname, k));
    assert(label == candidate(hostname, n));
    if k < n {
        lemma_candidates_differ(hostname, k, n);
    } else if n < k {
        lemma_candidates_differ(hostname, n, k);
    }
    assert(taken(labels, i, candidate(hostname, 1)));
    assert forall|m: nat| 2 <= m < n implies taken(
        labels,
        i,
        hostname + "-"@ + #[trigger] text::decimal(m),
    ) by {
        assert(taken(labels, i, candidate(hostname, m)));
    }
}

/// The name itself is the label where it fits into 63 bytes and nobody else has it; and the
/// fallback is taken only where a candidate does not fit.
pub proof fn free_names_are_labels(
    labels: Seq<Option<Seq<char>>>,
    i: int,
    hostname: Seq<char>,
    fallback: Seq<char>,
    label: Option<Seq<char>>,
)
    requires
        comes_to(labels, i, hostname, fallback, label),
    ensures
        encode_utf8(hostname).len() <= 63 && (forall|j: int|
            0 <= j < labels.len() && j != i ==> #[trigger] labels[j] != Some(hostname)) ==> label
            == Some(hostname),
        encode_utf8(hostname).len() > 63 ==> label == if exists|j: int|
            0 <= j < labels.len() && j != i && #[trigger] labels[j] == Some(fallback) {
            None::<Seq<char>>
        } else {
            Some(fallback)
        },
{
    let n = choose|n: nat| #[trigger] ends_at(labels, i, hostname, fallback, label, n);
    if n >= 2 {
        assert(!too_long(candidate(hostname, 1)) && taken(labels, i, candidate(hostname, 1)));
    }
}

} // verus!
