//! Line diffs with the Myers algorithm, and their unified-diff text.
use vstd::prelude::*;

verus! {

/// One step of an edit script from `a` to `b`.
#[derive(Debug, Clone, Copy, PartialEq, Eq, Structural)]
pub enum Edit {
    /// Line `j` of `b` is inserted.
    Insert(usize),
    /// Line `i` of `a` is deleted.
    Delete(usize),
    /// Line `i` of `a` is kept as line `j` of `b`.
    Equal(usize, usize),
}

/// The text of each line.
pub open spec fn lines_view(lines: Seq<String>) -> Seq<Seq<char>> {
    lines.map_values(|s: String| s@)
}

/// Where one edit leads from line `i` of `a` and line `j` of `b`, when it
/// applies there: a kept line is the next of both and equal in both, a
/// deleted line the next of `a`, an inserted line the next of `b`.
pub open spec fn step(a: Seq<Seq<char>>, b: Seq<Seq<char>>, e: Edit, i: int, j: int) -> Option<(int, int)> {
    match e {
        Edit::Equal(x, y) => if x == i && y == j && 0 <= i < a.len() && 0 <= j < b.len() && a[i] == b[j] {
            Some((i + 1, j + 1))
        } else {
            None
        },
        Edit::Delete(x) => if x == i && 0 <= i < a.len() {
            Some((i + 1, j))
        } else {
            None
        },
        Edit::Insert(y) => if y == j && 0 <= j < b.len() {
            Some((i, j + 1))
        } else {
            None
        },
    }
}

/// Where a sequence of edits leads from `(i, j)`, when each applies in turn.
pub open spec fn walk(a: Seq<Seq<char>>, b: Seq<Seq<char>>, edits: Seq<Edit>, i: int, j: int) -> Option<(int, int)>
    decreases edits.len(),
{
    if edits.len() == 0 {
        Some((i, j))
    } else {
        match step(a, b, edits[0], i, j) {
            Some(p) => walk(a, b, edits.drop_first(), p.0, p.1),
            None => None,
        }
    }
}

/// The edits turn `a` into `b`: taken in order from the first lines, they
/// keep, delete or insert every line exactly once, and kept lines are equal.
pub open spec fn is_edit_script(a: Seq<Seq<char>>, b: Seq<Seq<char>>, edits: Seq<Edit>) -> bool {
    walk(a, b, edits, 0, 0) == Some((a.len() as int, b.len() as int))
}

/// The lines of `a` that edits keep or delete, in order.
pub open spec fn old_lines(a: Seq<Seq<char>>, edits: Seq<Edit>) -> Seq<Seq<char>>
    decreases edits.len(),
{
    if edits.len() == 0 {
        Seq::empty()
    } else {
        match edits[0] {
            Edit::Insert(_) => old_lines(a, edits.drop_first()),
            Edit::Delete(i) => seq![a[i as int]] + old_lines(a, edits.drop_first()),
            Edit::Equal(i, _) => seq![a[i as int]] + old_lines(a, edits.drop_first()),
        }
    }
}

/// The lines of `b` that edits keep or insert, in order.
pub open spec fn new_lines(b: Seq<Seq<char>>, edits: Seq<Edit>) -> Seq<Seq<char>>
    decreases edits.len(),
{
    if edits.len() == 0 {
        Seq::empty()
    } else {
        match edits[0] {
            Edit::Delete(_) => new_lines(b, edits.drop_first()),
            Edit::Insert(j) => seq![b[j as int]] + new_lines(b, edits.drop_first()),
            Edit::Equal(_, j) => seq![b[j as int]] + new_lines(b, edits.drop_first()),
        }
    }
}

proof fn lemma_walk_sides(a: Seq<Seq<char>>, b: Seq<Seq<char>>, edits: Seq<Edit>, i: int, j: int)
    requires
        0 <= i <= a.len(),
        0 <= j <= b.len(),
        walk(a, b, edits, i, j) == Some((a.len() as int, b.len() as int)),
    ensures
        old_lines(a, edits) == a.skip(i),
        new_lines(b, edits) == b.skip(j),
    decreases edits.len(),
{
    if edits.len() == 0 {
        assert(a.skip(i) =~= Seq::<Seq<char>>::empty());
        assert(b.skip(j) =~= Seq::<Seq<char>>::empty());
    } else {
        let p = step(a, b, edits[0], i, j)->0;
        lemma_walk_sides(a, b, edits.drop_first(), p.0, p.1);
        match edits[0] {
            Edit::Insert(_) => {
                assert(b.skip(j) =~= seq![b[j]] + b.skip(j + 1));
            },
            Edit::Delete(_) => {
                assert(a.skip(i) =~= seq![a[i]] + a.skip(i + 1));
            },
            Edit::Equal(_, _) => {
                assert(a.skip(i) =~= seq![a[i]] + a.skip(i + 1));
                assert(b.skip(j) =~= seq![b[j]] + b.skip(j + 1));
            },
        }
    }
}

/// An edit script reads `a` on its old side and `b` on its new side: the
/// kept and deleted lines are all of `a`, the kept and inserted lines all of
/// `b`, each in order.
pub proof fn lemma_edit_script_sides(a: Seq<Seq<char>>, b: Seq<Seq<char>>, edits: Seq<Edit>)
    requires
        is_edit_script(a, b, edits),
    ensures
        old_lines(a, edits) == a,
        new_lines(b, edits) == b,
{
    lemma_walk_sides(a, b, edits, 0, 0);
    assert(a.skip(0) =~= a);
    assert(b.skip(0) =~= b);
}

/// A walk takes one edit per line of either side at most.
proof fn lemma_walk_len(a: Seq<Seq<char>>, b: Seq<Seq<char>>, edits: Seq<Edit>, i: int, j: int)
    requires
        walk(a, b, edits, i, j) == Some((a.len() as int, b.len() as int)),
    ensures
        edits.len() <= (a.len() - i) + (b.len() - j),
    decreases edits.len(),
{
    if edits.len() > 0 {
        let p = step(a, b, edits[0], i, j)->0;
        lemma_walk_len(a, b, edits.drop_first(), p.0, p.1);
    }
}

/// An edit script has no more edits than lines on both sides.
pub proof fn lemma_edit_script_len(a: Seq<Seq<char>>, b: Seq<Seq<char>>, edits: Seq<Edit>)
    requires
        is_edit_script(a, b, edits),
    ensures
        edits.len() <= a.len() + b.len(),
{
    lemma_walk_len(a, b, edits, 0, 0);
}

/// Walking edits and then one more.
proof fn lemma_walk_push(a: Seq<Seq<char>>, b: Seq<Seq<char>>, s: Seq<Edit>, e: Edit, i: int, j: int)
    ensures
        walk(a, b, s.push(e), i, j) == match walk(a, b, s, i, j) {
            Some(p) => step(a, b, e, p.0, p.1),
            None => None,
        },
    decreases s.len(),
{
    if s.len() == 0 {
        let t = s.push(e);
        assert(t[0] == e);
        assert(t.drop_first() =~= Seq::<Edit>::empty());
        match step(a, b, e, i, j) {
            Some(p) => {
                assert(walk(a, b, t.drop_first(), p.0, p.1) == Some(p));
            },
            None => {},
        }
    } else {
        assert(s.push(e).drop_first() =~= s.drop_first().push(e));
        assert(s.push(e)[0] == s[0]);
        match step(a, b, s[0], i, j) {
            Some(p) => lemma_walk_push(a, b, s.drop_first(), e, p.0, p.1),
            None => {},
        }
    }
}

/// The script that keeps every one of `n` lines.
pub open spec fn all_kept(n: int) -> Seq<Edit> {
    Seq::new(n as nat, |t: int| Edit::Equal(t as usize, t as usize))
}

/// The script that keeps every line, when the lines of `a` and `b` are the same.
fn keep_all(a: &[String], b: &[String]) -> (r: Option<Vec<Edit>>)
    ensures
        r is Some <==> lines_view(a@) == lines_view(b@),
        r matches Some(e) ==> e@ == all_kept(a@.len() as int)
            && is_edit_script(lines_view(a@), lines_view(b@), e@),
{
    let ghost av = lines_view(a@);
    let ghost bv = lines_view(b@);
    if a.len() != b.len() {
        assert(av.len() != bv.len());
        return None;
    }
    let n = a.len();
    let mut edits: Vec<Edit> = Vec::new();
    let mut i: usize = 0;
    assert(edits@ =~= all_kept(0));
    while i < n
        invariant
            i <= n,
            a@.len() == n,
            b@.len() == n,
            av == lines_view(a@),
            bv == lines_view(b@),
            walk(av, bv, edits@, 0, 0) == Some((i as int, i as int)),
            edits@ == all_kept(i as int),
            forall|k: int| 0 <= k < i ==> av[k] == bv[k],
        decreases n - i,
    {
        if a[i] != b[i] {
            assert(av[i as int] != bv[i as int]);
            return None;
        }
        assert(av[i as int] == bv[i as int]);
        proof {
            lemma_walk_push(av, bv, edits@, Edit::Equal(i, i), 0, 0);
        }
        edits.push(Edit::Equal(i, i));
        i += 1;
        assert(edits@ =~= all_kept(i as int));
    }
    assert(av =~= bv);
    Some(edits)
}

/// The number of lines a script keeps.
pub open spec fn kept(edits: Seq<Edit>) -> nat
    decreases edits.len(),
{
    if edits.len() == 0 {
        0
    } else {
        kept(edits.drop_last()) + if edits.last() is Equal { 1nat } else { 0nat }
    }
}

/// The larger of two numbers.
pub open spec fn max_nat(x: nat, y: nat) -> nat {
    if x >= y { x } else { y }
}

/// The length of a longest common subsequence of the lines of `a` from `i`
/// on and those of `b` from `j` on.
pub open spec fn lcs(a: Seq<Seq<char>>, b: Seq<Seq<char>>, i: int, j: int) -> nat
    decreases a.len() - i + b.len() - j,
{
    if i < 0 || j < 0 || i >= a.len() || j >= b.len() {
        0
    } else {
        let skip = max_nat(lcs(a, b, i + 1, j), lcs(a, b, i, j + 1));
        if a[i] == b[j] { max_nat(1 + lcs(a, b, i + 1, j + 1), skip) } else { skip }
    }
}

/// A common subsequence from `(i, j)` on is no longer than the rest of `a`.
proof fn lemma_lcs_bound(a: Seq<Seq<char>>, b: Seq<Seq<char>>, i: int, j: int)
    requires
        0 <= i <= a.len(),
        0 <= j <= b.len(),
    ensures
        lcs(a, b, i, j) <= a.len() - i,
    decreases a.len() - i + b.len() - j,
{
    if i < a.len() && j < b.len() {
        lemma_lcs_bound(a, b, i + 1, j);
        lemma_lcs_bound(a, b, i, j + 1);
        lemma_lcs_bound(a, b, i + 1, j + 1);
    }
}

/// The lines kept by a script split at its first edit.
proof fn lemma_kept_front(edits: Seq<Edit>)
    requires
        edits.len() > 0,
    ensures
        kept(edits) == kept(edits.drop_first()) + if edits[0] is Equal { 1nat } else { 0nat },
    decreases edits.len(),
{
    if edits.len() > 1 {
        lemma_kept_front(edits.drop_last());
        assert(edits.drop_last().drop_first() =~= edits.drop_first().drop_last());
        assert(edits.drop_first().last() == edits.last());
        assert(edits.drop_last()[0] == edits[0]);
    } else {
        assert(edits.drop_first() =~= Seq::<Edit>::empty());
        assert(edits.drop_last() =~= Seq::<Edit>::empty());
    }
}

/// A script from `(i, j)` to the ends of both keeps no more lines than a
/// longest common subsequence of what is left.
proof fn lemma_kept_at_most_lcs(a: Seq<Seq<char>>, b: Seq<Seq<char>>, edits: Seq<Edit>, i: int, j: int)
    requires
        0 <= i <= a.len(),
        0 <= j <= b.len(),
        walk(a, b, edits, i, j) == Some((a.len() as int, b.len() as int)),
    ensures
        kept(edits) <= lcs(a, b, i, j),
    decreases edits.len(),
{
    if edits.len() > 0 {
        lemma_kept_front(edits);
        let p = step(a, b, edits[0], i, j)->0;
        lemma_kept_at_most_lcs(a, b, edits.drop_first(), p.0, p.1);
    }
}

/// No edit script from `a` to `b` keeps more lines than a longest common subsequence.
pub proof fn lemma_edit_script_kept(a: Seq<Seq<char>>, b: Seq<Seq<char>>, edits: Seq<Edit>)
    requires
        is_edit_script(a, b, edits),
    ensures
        kept(edits) <= lcs(a, b, 0, 0),
{
    lemma_kept_at_most_lcs(a, b, edits, 0, 0);
}

/// The row of longest-common-subsequence lengths for the lines of `a` from
/// `i` on, against each suffix of `b`.
fn lcs_row(a: &[String], b: &[String], i: usize, next: &Vec<usize>) -> (row: Vec<usize>)
    requires
        a@.len() + b@.len() <= usize::MAX / 4,
        i < a@.len(),
        next@.len() == b@.len() + 1,
        forall|j: int| 0 <= j <= b@.len() ==> #[trigger] next@[j] == lcs(lines_view(a@), lines_view(b@), i + 1, j),
    ensures
        row@.len() == b@.len() + 1,
        forall|j: int| 0 <= j <= b@.len() ==> #[trigger] row@[j] == lcs(lines_view(a@), lines_view(b@), i as int, j),
{
    let ghost av = lines_view(a@);
    let ghost bv = lines_view(b@);
    let m = b.len();
    let mut row: Vec<usize> = Vec::new();
    let mut t: usize = 0;
    while t <= m
        invariant
            t <= m + 1,
            m == b@.len(),
            m <= usize::MAX / 4,
            row@.len() == t,
            forall|u: int| 0 <= u < t ==> row@[u] == 0,
        decreases m + 1 - t,
    {
        row.push(0);
        t += 1;
    }
    let mut j: usize = m;
    while j > 0
        invariant
            j <= m,
            m == b@.len(),
            a@.len() + b@.len() <= usize::MAX / 4,
            i < a@.len(),
            av == lines_view(a@),
            bv == lines_view(b@),
            row@.len() == m + 1,
            next@.len() == m + 1,
            forall|u: int| 0 <= u <= m ==> #[trigger] next@[u] == lcs(av, bv, i + 1, u),
            forall|u: int| j <= u <= m ==> #[trigger] row@[u] == lcs(av, bv, i as int, u),
        decreases j,
    {
        j -= 1;
        proof {
            lemma_lcs_bound(av, bv, i + 1, j + 1);
            lemma_lcs_bound(av, bv, i as int, j as int);
            assert(av[i as int] == a@[i as int]@ && bv[j as int] == b@[j as int]@);
        }
        let down = next[j];
        let right = row[j + 1];
        let skip = if down >= right { down } else { right };
        let v = if a[i] == b[j] {
            let diag = next[j + 1] + 1;
            if diag >= skip { diag } else { skip }
        } else {
            skip
        };
        row.set(j, v);
    }
    row
}

/// The length of a longest common subsequence of the lines of `a` and `b`.
fn lcs_length(a: &[String], b: &[String]) -> (l: usize)
    requires
        a@.len() + b@.len() <= usize::MAX / 4,
    ensures
        l == lcs(lines_view(a@), lines_view(b@), 0, 0),
{
    let ghost av = lines_view(a@);
    let ghost bv = lines_view(b@);
    let m = b.len();
    let mut row: Vec<usize> = Vec::new();
    let mut t: usize = 0;
    while t <= m
        invariant
            t <= m + 1,
            m == b@.len(),
            m <= usize::MAX / 4,
            row@.len() == t,
            forall|u: int| 0 <= u < t ==> row@[u] == 0,
        decreases m + 1 - t,
    {
        row.push(0);
        t += 1;
    }
    let mut i: usize = a.len();
    while i > 0
        invariant
            i <= a@.len(),
            m == b@.len(),
            a@.len() + b@.len() <= usize::MAX / 4,
            av == lines_view(a@),
            bv == lines_view(b@),
            row@.len() == m + 1,
            forall|u: int| 0 <= u <= m ==> #[trigger] row@[u] == lcs(av, bv, i as int, u),
        decreases i,
    {
        i -= 1;
        row = lcs_row(a, b, i, &row);
    }
    row[0]
}

/// A script that keeps as many lines as a longest common subsequence,
/// traced through the table of subsequence lengths.
fn lcs_script(a: &[String], b: &[String]) -> (edits: Vec<Edit>)
    requires
        a@.len() + b@.len() <= usize::MAX / 4,
    ensures
        is_edit_script(lines_view(a@), lines_view(b@), edits@),
        kept(edits@) == lcs(lines_view(a@), lines_view(b@), 0, 0),
{
    let ghost av = lines_view(a@);
    let ghost bv = lines_view(b@);
    let n = a.len();
    let m = b.len();
    let mut zero: Vec<usize> = Vec::new();
    let mut t: usize = 0;
    while t <= m
        invariant
            t <= m + 1,
            m == b@.len(),
            m <= usize::MAX / 4,
            zero@.len() == t,
            forall|u: int| 0 <= u < t ==> zero@[u] == 0,
        decreases m + 1 - t,
    {
        zero.push(0);
        t += 1;
    }
    // rows[t] holds the lengths for the lines of `a` from `n - t` on.
    let mut rows: Vec<Vec<usize>> = Vec::new();
    rows.push(zero);
    let mut k: usize = 0;
    while k < n
        invariant
            k <= n,
            n == a@.len(),
            m == b@.len(),
            n + m <= usize::MAX / 4,
            av == lines_view(a@),
            bv == lines_view(b@),
            rows@.len() == k + 1,
            forall|r: int| 0 <= r <= k ==> (#[trigger] rows@[r])@.len() == m + 1,
            forall|r: int, u: int| 0 <= r <= k && 0 <= u <= m ==> #[trigger] rows@[r]@[u] == lcs(av, bv, n - r, u),
        decreases n - k,
    {
        let row = lcs_row(a, b, n - k - 1, &rows[k]);
        rows.push(row);
        k += 1;
    }
    let mut edits: Vec<Edit> = Vec::new();
    let mut i: usize = 0;
    let mut j: usize = 0;
    assert(edits@ =~= Seq::<Edit>::empty());
    while i < n || j < m
        invariant
            i <= n,
            j <= m,
            n == a@.len(),
            m == b@.len(),
            n + m <= usize::MAX / 4,
            av == lines_view(a@),
            bv == lines_view(b@),
            rows@.len() == n + 1,
            forall|r: int| 0 <= r <= n ==> (#[trigger] rows@[r])@.len() == m + 1,
            forall|r: int, u: int| 0 <= r <= n && 0 <= u <= m ==> #[trigger] rows@[r]@[u] == lcs(av, bv, n - r, u),
            walk(av, bv, edits@, 0, 0) == Some((i as int, j as int)),
            kept(edits@) + lcs(av, bv, i as int, j as int) == lcs(av, bv, 0, 0),
        decreases n - i + m - j,
    {
        let here = rows[n - i][j];
        let e = if i < n && j < m && a[i] == b[j] && here == rows[n - i - 1][j + 1] + 1 {
            Edit::Equal(i, j)
        } else if i < n && here == rows[n - i - 1][j] {
            Edit::Delete(i)
        } else {
            Edit::Insert(j)
        };
        proof {
            assert(rows@[n - i]@[j as int] == lcs(av, bv, i as int, j as int));
            if i < n {
                assert(rows@[n - i - 1]@[j as int] == lcs(av, bv, i + 1, j as int));
                if j < m {
                    assert(rows@[n - i - 1]@[j + 1] == lcs(av, bv, i + 1, j + 1));
                    assert(av[i as int] == a@[i as int]@ && bv[j as int] == b@[j as int]@);
                }
            }
            if j < m {
                assert(rows@[n - i]@[j + 1] == lcs(av, bv, i as int, j + 1));
            }
            lemma_walk_push(av, bv, edits@, e, 0, 0);
            assert(edits@.push(e).drop_last() =~= edits@);
        }
        edits.push(e);
        match e {
            Edit::Equal(_, _) => {
                i += 1;
                j += 1;
            },
            Edit::Delete(_) => {
                i += 1;
            },
            Edit::Insert(_) => {
                j += 1;
            },
        }
    }
    edits
}

/// The number of lines a script keeps, counted.
fn count_kept(edits: &Vec<Edit>) -> (c: usize)
    ensures
        c == kept(edits@),
{
    let mut c: usize = 0;
    let mut i: usize = 0;
    assert(edits@.take(0) =~= Seq::<Edit>::empty());
    while i < edits.len()
        invariant
            i <= edits@.len(),
            c == kept(edits@.take(i as int)),
            c <= i,
        decreases edits@.len() - i,
    {
        assert(edits@.take(i + 1).drop_last() =~= edits@.take(i as int));
        if matches!(edits[i], Edit::Equal(_, _)) {
            c += 1;
        }
        i += 1;
    }
    assert(edits@.take(edits@.len() as int) =~= edits@);
    c
}

/// Deleting every line of `a`, then inserting every line of `b`.
fn replace_all(n: usize, m: usize, Ghost(a): Ghost<Seq<Seq<char>>>, Ghost(b): Ghost<Seq<Seq<char>>>) -> (edits: Vec<Edit>)
    requires
        a.len() == n,
        b.len() == m,
    ensures
        is_edit_script(a, b, edits@),
{
    let mut edits: Vec<Edit> = Vec::new();
    let mut i: usize = 0;
    while i < n
        invariant
            i <= n,
            a.len() == n,
            walk(a, b, edits@, 0, 0) == Some((i as int, 0int)),
        decreases n - i,
    {
        proof {
            lemma_walk_push(a, b, edits@, Edit::Delete(i), 0, 0);
        }
        edits.push(Edit::Delete(i));
        i += 1;
    }
    let mut j: usize = 0;
    while j < m
        invariant
            j <= m,
            a.len() == n,
            b.len() == m,
            walk(a, b, edits@, 0, 0) == Some((n as int, j as int)),
        decreases m - j,
    {
        proof {
            lemma_walk_push(a, b, edits@, Edit::Insert(j), 0, 0);
        }
        edits.push(Edit::Insert(j));
        j += 1;
    }
    edits
}

/// Keeps equal lines going back from `(x, y)` while both stay above `(px, py)`;
/// `None` when two such lines differ.
#[verifier::rlimit(40)]
#[verifier::spinoff_prover]
fn push_diagonal(a: &[String], b: &[String], rev: &mut Vec<Edit>, x0: usize, y0: usize, px: usize, py: usize,
    Ghost(av): Ghost<Seq<Seq<char>>>, Ghost(bv): Ghost<Seq<Seq<char>>>) -> (r: Option<(usize, usize)>)
    requires
        av == lines_view(a@),
        bv == lines_view(b@),
        x0 <= a@.len(),
        y0 <= b@.len(),
        walk(av, bv, old(rev)@.reverse(), x0 as int, y0 as int) == Some((a@.len() as int, b@.len() as int)),
    ensures
        r matches Some(p) ==> {
            &&& p.0 <= x0 && p.1 <= y0
            &&& !(p.0 > px && p.1 > py)
            &&& walk(av, bv, final(rev)@.reverse(), p.0 as int, p.1 as int) == Some((a@.len() as int, b@.len() as int))
        },
{
    let ghost n = a@.len() as int;
    let ghost m = b@.len() as int;
    let mut x = x0;
    let mut y = y0;
    while x > px && y > py
        invariant
            av == lines_view(a@),
            bv == lines_view(b@),
            x <= a@.len(),
            y <= b@.len(),
            n == a@.len(),
            m == b@.len(),
            x <= x0,
            y <= y0,
            walk(av, bv, rev@.reverse(), x as int, y as int) == Some((n, m)),
        decreases x,
    {
        if a[x - 1] != b[y - 1] {
            return None;
        }
        let e = Edit::Equal(x - 1, y - 1);
        proof {
            assert(av[x - 1] == a@[x - 1]@ && bv[y - 1] == b@[y - 1]@);
            assert(rev@.push(e).reverse() =~= seq![e] + rev@.reverse());
            assert((seq![e] + rev@.reverse()).drop_first() =~= rev@.reverse());
        }
        rev.push(e);
        x -= 1;
        y -= 1;
    }
    Some((x, y))
}

/// A copy of a vector of positions.
fn copy_positions(v: &Vec<usize>) -> (c: Vec<usize>)
    ensures
        c@ == v@,
{
    let mut c: Vec<usize> = Vec::new();
    let mut i: usize = 0;
    while i < v.len()
        invariant
            i <= v@.len(),
            c@ == v@.take(i as int),
        decreases v@.len() - i,
    {
        c.push(v[i]);
        i += 1;
        assert(c@ =~= v@.take(i as int));
    }
    assert(v@.take(v@.len() as int) =~= v@);
    c
}

/// A shortest edit script between the lines of `a` and those of `b`: it
/// keeps as many lines as a longest common subsequence. Same lines are all
/// kept at once; otherwise the Myers search finds the script, and its
/// length of kept lines is checked against the longest common subsequence,
/// which traces the script instead should the search fall short.
pub fn diff_lines(a: &[String], b: &[String]) -> (edits: Vec<Edit>)
    requires
        a@.len() + b@.len() <= usize::MAX / 4,
    ensures
        is_edit_script(lines_view(a@), lines_view(b@), edits@),
        kept(edits@) == lcs(lines_view(a@), lines_view(b@), 0, 0),
        forall|e2: Seq<Edit>| #[trigger] is_edit_script(lines_view(a@), lines_view(b@), e2) ==> kept(e2) <= kept(edits@),
        lines_view(a@) == lines_view(b@) ==> edits@ == all_kept(a@.len() as int),
{
    let ghost av = lines_view(a@);
    let ghost bv = lines_view(b@);
    let found = match keep_all(a, b) {
        Some(e) => {
            proof {
                lemma_all_kept_count(a@.len() as int);
                lemma_edit_script_kept(av, bv, e@);
                lemma_lcs_bound(av, bv, 0, 0);
            }
            e
        },
        None => {
            let e = myers_script(a, b);
            let l = lcs_length(a, b);
            if count_kept(&e) == l {
                e
            } else {
                lcs_script(a, b)
            }
        },
    };
    proof {
        assert forall|e2: Seq<Edit>| #[trigger] is_edit_script(av, bv, e2) implies kept(e2) <= kept(found@) by {
            lemma_edit_script_kept(av, bv, e2);
        }
    }
    found
}

/// A script that keeps all `n` lines keeps `n`.
proof fn lemma_all_kept_count(n: int)
    requires
        n >= 0,
    ensures
        kept(all_kept(n)) == n,
    decreases n,
{
    if n > 0 {
        lemma_all_kept_count(n - 1);
        assert(all_kept(n).drop_last() =~= all_kept(n - 1));
    }
}

/// The script the Myers search traces back: for growing numbers `d` of
/// inserted and deleted lines it records, on each diagonal, how far a path
/// with `d` such edits reaches, following equal lines as far as they go; the
/// first path that reaches the ends of both is traced back. A path that does
/// not trace back to the start gives way to deleting all of `a` and
/// inserting all of `b`.
fn myers_script(a: &[String], b: &[String]) -> (edits: Vec<Edit>)
    requires
        a@.len() + b@.len() <= usize::MAX / 4,
    ensures
        is_edit_script(lines_view(a@), lines_view(b@), edits@),
{
    let ghost av = lines_view(a@);
    let ghost bv = lines_view(b@);
    let n = a.len();
    let m = b.len();
    let max_d = n + m;
    let offset = max_d + 1;
    let width = 2 * max_d + 3;
    let mut v: Vec<usize> = Vec::new();
    let mut w: usize = 0;
    while w < width
        invariant
            w <= width,
            v@.len() == w,
            forall|t: int| 0 <= t < w ==> v@[t] == 0,
        decreases width - w,
    {
        v.push(0);
        w += 1;
    }
    let mut trace: Vec<Vec<usize>> = Vec::new();
    let mut found: Option<usize> = None;
    let mut d: usize = 0;
    while d <= max_d && found.is_none()
        invariant
            n == a@.len(),
            m == b@.len(),
            max_d == n + m,
            max_d <= usize::MAX / 4,
            offset == max_d + 1,
            width == 2 * max_d + 3,
            v@.len() == width,
            trace@.len() == d,
            forall|t: int| 0 <= t < trace@.len() ==> (#[trigger] trace@[t])@.len() == width,
            found matches Some(fd) ==> fd < d && fd <= max_d,
            found is None ==> d <= max_d + 1,
            forall|t: int| 0 <= t < width ==> v@[t] <= n + d,
            forall|t: int, u: int| 0 <= t < trace@.len() && 0 <= u < width ==> (#[trigger] trace@[t]@[u]) <= n + t,
        decreases max_d + 2 - d, (if found is None { 1int } else { 0int }),
    {
        trace.push(copy_positions(&v));
        let mut idx: usize = offset - d;
        while idx <= offset + d && found.is_none()
            invariant
                n == a@.len(),
                m == b@.len(),
                max_d == n + m,
                max_d <= usize::MAX / 4,
                offset == max_d + 1,
                width == 2 * max_d + 3,
                d <= max_d,
                v@.len() == width,
                offset - d <= idx <= offset + d + 2,
                found matches Some(fd) ==> fd == d,
                (idx + offset + d) % 2 == 0,
                forall|t: int| 0 <= t < width ==> v@[t] <= n + d + (if (t + offset + d) % 2 == 0 { 1int } else { 0int }),
            decreases offset + d + 2 - idx, (if found is None { 1int } else { 0int }),
        {
            let down = idx == offset - d || (idx != offset + d && v[idx - 1] < v[idx + 1]);
            let mut x: usize = if down { v[idx + 1] } else { v[idx - 1] + 1 };
            if x + offset >= idx {
                let mut y: usize = x + offset - idx;
                while x < n && y < m && a[x] == b[y]
                    invariant
                        n == a@.len(),
                        m == b@.len(),
                        y <= x + offset,
                        x <= n + d + 1,
                        d <= max_d,
                        max_d == n + m,
                        max_d <= usize::MAX / 4,
                        offset == max_d + 1,
                    decreases n - x,
                {
                    x += 1;
                    y += 1;
                }
                if x == n && y == m {
                    found = Some(d);
                }
            }
            v.set(idx, x);
            idx += 2;
        }
        d += 1;
    }
    let fd = match found {
        Some(fd) => fd,
        None => {
            return replace_all(n, m, Ghost(av), Ghost(bv));
        },
    };
    assert(av.len() == n && bv.len() == m);
    let mut rev: Vec<Edit> = Vec::new();
    let mut x: usize = n;
    let mut y: usize = m;
    let mut dd: usize = fd;
    assert(rev@.reverse() =~= Seq::<Edit>::empty());
    loop
        invariant
            n == a@.len(),
            m == b@.len(),
            av == lines_view(a@),
            bv == lines_view(b@),
            offset == max_d + 1,
            max_d == n + m,
            max_d <= usize::MAX / 4,
            width == 2 * max_d + 3,
            dd <= fd,
            fd < trace@.len(),
            forall|t: int| 0 <= t < trace@.len() ==> (#[trigger] trace@[t])@.len() == width,
            x <= n,
            y <= m,
            walk(av, bv, rev@.reverse(), x as int, y as int) == Some((n as int, m as int)),
            fd <= max_d,
        ensures
            walk(av, bv, rev@.reverse(), 0, 0) == Some((n as int, m as int)),
        decreases dd,
    {
        if dd == 0 {
            match push_diagonal(a, b, &mut rev, x, y, 0, 0, Ghost(av), Ghost(bv)) {
                Some(p) => {
                    x = p.0;
                    y = p.1;
                },
                None => {
                    return replace_all(n, m, Ghost(av), Ghost(bv));
                },
            }
            if x != 0 || y != 0 {
                return replace_all(n, m, Ghost(av), Ghost(bv));
            }
            break;
        }
        let vd = &trace[dd];
        if x + offset < y || x + offset - y < offset - dd || x + offset - y > offset + dd {
            return replace_all(n, m, Ghost(av), Ghost(bv));
        }
        let k_idx = x + offset - y;
        let down = k_idx == offset - dd || (k_idx != offset + dd && vd[k_idx - 1] < vd[k_idx + 1]);
        let prev_idx = if down { k_idx + 1 } else { k_idx - 1 };
        let prev_x = vd[prev_idx];
        if prev_x > x || prev_x + offset < prev_idx {
            return replace_all(n, m, Ghost(av), Ghost(bv));
        }
        let prev_y = prev_x + offset - prev_idx;
        match push_diagonal(a, b, &mut rev, x, y, prev_x, prev_y, Ghost(av), Ghost(bv)) {
            Some(p) => {
                x = p.0;
                y = p.1;
            },
            None => {
                return replace_all(n, m, Ghost(av), Ghost(bv));
            },
        }
        let e = if x == prev_x + 1 && y == prev_y {
            Edit::Delete(prev_x)
        } else if y == prev_y + 1 && x == prev_x {
            Edit::Insert(prev_y)
        } else {
            return replace_all(n, m, Ghost(av), Ghost(bv));
        };
        proof {
            assert(rev@.push(e).reverse() =~= seq![e] + rev@.reverse());
            assert((seq![e] + rev@.reverse()).drop_first() =~= rev@.reverse());
        }
        rev.push(e);
        x = prev_x;
        y = prev_y;
        dd -= 1;
    }
    let mut edits: Vec<Edit> = Vec::new();
    let mut i: usize = rev.len();
    while i > 0
        invariant
            i <= rev@.len(),
            edits@ == rev@.reverse().take(rev@.len() - i),
        decreases i,
    {
        i -= 1;
        edits.push(rev[i]);
        assert(edits@ =~= rev@.reverse().take(rev@.len() - i));
    }
    assert(rev@.reverse().take(rev@.len() as int) =~= rev@.reverse());
    edits
}


/// An edit keeps a line.
pub open spec fn is_equal(e: Edit) -> bool {
    e is Equal
}

/// Context after the edit at `last`: of the `j` positions after it, those
/// inside the script that keep a line.
pub open spec fn trailing(edits: Seq<Edit>, last: int, j: int) -> Seq<int>
    decreases j,
{
    if j <= 0 {
        Seq::empty()
    } else {
        let t = last + j;
        trailing(edits, last, j - 1) + if t < edits.len() && is_equal(edits[t]) {
            seq![t]
        } else {
            Seq::empty()
        }
    }
}

/// The kept lines among the edits `lo`, `lo + 1`, ..., `hi - 1`, in order.
pub open spec fn kept_between(edits: Seq<Edit>, lo: int, hi: int) -> Seq<int>
    decreases hi - lo,
{
    if hi <= lo {
        Seq::empty()
    } else {
        let t = hi - 1;
        kept_between(edits, lo, hi - 1) + if 0 <= t < edits.len() && is_equal(edits[t]) {
            seq![t]
        } else {
            Seq::empty()
        }
    }
}

/// The grouping of the first `n` edits into hunks: the finished hunks, the
/// hunk being built, and the position of the last insertion or deletion.
/// A change opens a hunk with the kept lines of the `ctx` edits before it,
/// or joins the open hunk together with the kept lines since the last
/// change; a kept line more than twice the context away from the last
/// change closes the open hunk with its trailing context.
pub open spec fn grouping(edits: Seq<Edit>, ctx: int, n: int) -> (Seq<Seq<int>>, Seq<int>, int)
    decreases n,
{
    if n <= 0 {
        (Seq::empty(), Seq::empty(), 0)
    } else {
        let st = grouping(edits, ctx, n - 1);
        let i = n - 1;
        if is_equal(edits[i]) {
            if st.1.len() > 0 && i - st.2 > ctx * 2 {
                (st.0.push(st.1 + trailing(edits, st.2, ctx)), Seq::empty(), st.2)
            } else {
                st
            }
        } else if st.1.len() == 0 {
            (st.0, kept_between(edits, if i >= ctx { i - ctx } else { 0 }, i).push(i), i)
        } else {
            (st.0, (st.1 + kept_between(edits, st.2 + 1, i)).push(i), i)
        }
    }
}

/// The hunks of a script: its grouping, with the last hunk closed by trailing context.
pub open spec fn hunks_of(edits: Seq<Edit>, ctx: int) -> Seq<Seq<int>> {
    let st = grouping(edits, ctx, edits.len() as int);
    if st.1.len() > 0 {
        st.0.push(st.1 + trailing(edits, st.2, ctx))
    } else {
        st.0
    }
}

/// A script that only keeps lines groups into no hunk.
proof fn lemma_kept_grouping(n: int, ctx: int, k: int)
    requires
        0 <= k <= n,
    ensures
        grouping(all_kept(n), ctx, k) == (Seq::<Seq<int>>::empty(), Seq::<int>::empty(), 0int),
    decreases k,
{
    if k > 0 {
        lemma_kept_grouping(n, ctx, k - 1);
        assert(is_equal(all_kept(n)[k - 1]));
    }
}

/// Same lines, all kept, give an empty diff.
pub proof fn lemma_same_lines_no_diff(a: Seq<Seq<char>>, ctx: int)
    ensures
        diff_text(a, a, all_kept(a.len() as int), ctx) == Seq::<char>::empty(),
{
    lemma_kept_grouping(a.len() as int, ctx, a.len() as int);
    assert(all_kept(a.len() as int).len() == a.len());
}

/// The range of lines that some indices of `a` (or `b`) cover: the smallest
/// and one past the largest, from `fold` over the hunk's edits.
pub open spec fn widen(r: Option<(int, int)>, idx: int) -> Option<(int, int)> {
    match r {
        None => Some((idx, idx + 1)),
        Some((lo, hi)) => Some((if idx < lo { idx } else { lo }, if idx + 1 > hi { idx + 1 } else { hi })),
    }
}

/// The ranges of `a` and `b` that the first `n` edits of a hunk touch.
pub open spec fn hunk_ranges(a_len: int, b_len: int, edits: Seq<Edit>, hunk: Seq<int>, n: int) -> (Option<(int, int)>, Option<(int, int)>)
    decreases n,
{
    if n <= 0 {
        (None, None)
    } else {
        let r = hunk_ranges(a_len, b_len, edits, hunk, n - 1);
        let idx = hunk[n - 1];
        if idx >= edits.len() {
            r
        } else {
            match edits[idx] {
                Edit::Equal(ai, bi) => (if ai < a_len { widen(r.0, ai as int) } else { r.0 },
                    if bi < b_len { widen(r.1, bi as int) } else { r.1 }),
                Edit::Delete(ai) => (if ai < a_len { widen(r.0, ai as int) } else { r.0 }, r.1),
                Edit::Insert(bi) => (r.0, if bi < b_len { widen(r.1, bi as int) } else { r.1 }),
            }
        }
    }
}

/// Start and length of a range, `(0, 0)` when nothing is touched.
pub open spec fn start_count(r: Option<(int, int)>) -> (int, int) {
    match r {
        None => (0, 0),
        Some((lo, hi)) => (lo, hi - lo),
    }
}

/// The hunk header: `@@ -<a start + 1>,<a count> +<b start + 1>,<b count> @@`.
pub open spec fn hunk_header(ra: (int, int), rb: (int, int)) -> Seq<char> {
    "@@ -"@ + crate::numeral::decimal((ra.0 + 1) as nat) + ","@ + crate::numeral::decimal(ra.1 as nat) + " +"@
        + crate::numeral::decimal((rb.0 + 1) as nat) + ","@ + crate::numeral::decimal(rb.1 as nat) + " @@\n"@
}

/// The line printed for an edit: a space, `-` or `+` before the line, or
/// nothing when the line is missing.
pub open spec fn edit_line(a: Seq<Seq<char>>, b: Seq<Seq<char>>, e: Edit) -> Seq<char> {
    match e {
        Edit::Equal(ai, _) => if ai < a.len() { seq![' '] + a[ai as int] + seq!['\n'] } else { Seq::empty() },
        Edit::Delete(ai) => if ai < a.len() { seq!['-'] + a[ai as int] + seq!['\n'] } else { Seq::empty() },
        Edit::Insert(bi) => if bi < b.len() { seq!['+'] + b[bi as int] + seq!['\n'] } else { Seq::empty() },
    }
}

/// The lines printed for the first `n` edits of a hunk.
pub open spec fn hunk_lines(a: Seq<Seq<char>>, b: Seq<Seq<char>>, edits: Seq<Edit>, hunk: Seq<int>, n: int) -> Seq<char>
    decreases n,
{
    if n <= 0 {
        Seq::empty()
    } else {
        hunk_lines(a, b, edits, hunk, n - 1) + edit_line(a, b, edits[hunk[n - 1]])
    }
}

/// The text of a hunk.
pub open spec fn hunk_text(a: Seq<Seq<char>>, b: Seq<Seq<char>>, edits: Seq<Edit>, hunk: Seq<int>) -> Seq<char> {
    if hunk.len() == 0 {
        Seq::empty()
    } else {
        let r = hunk_ranges(a.len() as int, b.len() as int, edits, hunk, hunk.len() as int);
        hunk_header(start_count(r.0), start_count(r.1)) + hunk_lines(a, b, edits, hunk, hunk.len() as int)
    }
}

/// The text of the first `n` hunks.
pub open spec fn hunks_text(a: Seq<Seq<char>>, b: Seq<Seq<char>>, edits: Seq<Edit>, hunks: Seq<Seq<int>>, n: int) -> Seq<char>
    decreases n,
{
    if n <= 0 {
        Seq::empty()
    } else {
        hunks_text(a, b, edits, hunks, n - 1) + hunk_text(a, b, edits, hunks[n - 1])
    }
}

/// Each line behind a mark and followed by a newline.
pub open spec fn marked_lines(mark: char, lines: Seq<Seq<char>>) -> Seq<char>
    decreases lines.len(),
{
    if lines.len() == 0 {
        Seq::empty()
    } else {
        marked_lines(mark, lines.drop_last()) + seq![mark] + lines.last() + seq!['\n']
    }
}

/// The unified-diff text of a script from `a` to `b`: a single hunk adding
/// or removing everything when one side is empty, nothing when both are,
/// else the hunks of the script with `ctx` lines of context.
pub open spec fn diff_text(a: Seq<Seq<char>>, b: Seq<Seq<char>>, edits: Seq<Edit>, ctx: int) -> Seq<char> {
    if a.len() == 0 && b.len() > 0 {
        "@@ -0,0 +1,"@ + crate::numeral::decimal(b.len()) + " @@\n"@ + marked_lines('+', b)
    } else if a.len() > 0 && b.len() == 0 {
        "@@ -1,"@ + crate::numeral::decimal(a.len()) + " +0,0 @@\n"@ + marked_lines('-', a)
    } else if a.len() == 0 && b.len() == 0 {
        Seq::empty()
    } else {
        let h = hunks_of(edits, ctx);
        hunks_text(a, b, edits, h, h.len() as int)
    }
}


/// Indices as integers.
pub open spec fn idx_seq(h: Seq<usize>) -> Seq<int> {
    h.map_values(|x: usize| x as int)
}

/// The view of hunks being built.
pub open spec fn hunks_view(hs: Seq<Vec<usize>>) -> Seq<Seq<int>> {
    hs.map_values(|h: Vec<usize>| idx_seq(h@))
}

/// Appends the trailing context of the change at `last` to `hunk`.
fn push_trailing(edits: &[Edit], last: usize, ctx: usize, hunk: &mut Vec<usize>)
    requires
        last <= edits@.len(),
        edits@.len() <= usize::MAX / 4,
        ctx <= usize::MAX / 4,
    ensures
        idx_seq(final(hunk)@) == idx_seq(old(hunk)@) + trailing(edits@, last as int, ctx as int),
        (forall|u: int| 0 <= u < old(hunk)@.len() ==> (#[trigger] old(hunk)@[u]) < edits@.len())
            ==> forall|u: int| 0 <= u < final(hunk)@.len() ==> (#[trigger] final(hunk)@[u]) < edits@.len(),
{
    let mut j: usize = 0;
    assert(idx_seq(hunk@) =~= idx_seq(old(hunk)@) + trailing(edits@, last as int, 0));
    while j < ctx
        invariant
            j <= ctx,
            last <= edits@.len(),
            edits@.len() <= usize::MAX / 4,
            ctx <= usize::MAX / 4,
            idx_seq(hunk@) == idx_seq(old(hunk)@) + trailing(edits@, last as int, j as int),
            old(hunk)@.len() <= hunk@.len(),
            forall|u: int| old(hunk)@.len() <= u < hunk@.len() ==> (#[trigger] hunk@[u]) < edits@.len(),
            forall|u: int| 0 <= u < old(hunk)@.len() ==> hunk@[u] == old(hunk)@[u],
        decreases ctx - j,
    {
        let t = last + j + 1;
        let ghost before = hunk@;
        let ghost tr = trailing(edits@, last as int, j as int);
        assert(trailing(edits@, last as int, j + 1) == tr + if (t as int) < edits@.len() && is_equal(edits@[t as int]) {
            seq![t as int]
        } else {
            Seq::<int>::empty()
        });
        if t < edits.len() && matches!(edits[t], Edit::Equal(_, _)) {
            hunk.push(t);
            assert(idx_seq(hunk@) =~= idx_seq(before) + seq![t as int]);
        } else {
            assert(idx_seq(before) + Seq::<int>::empty() =~= idx_seq(before));
        }
        j += 1;
        assert(idx_seq(hunk@) =~= idx_seq(old(hunk)@) + trailing(edits@, last as int, j as int));
    }
}

/// Appends the kept lines among the edits `lo` to `hi - 1` to `hunk`.
fn push_kept(edits: &[Edit], lo: usize, hi: usize, hunk: &mut Vec<usize>)
    requires
        hi <= edits@.len(),
    ensures
        idx_seq(final(hunk)@) == idx_seq(old(hunk)@) + kept_between(edits@, lo as int, hi as int),
        (forall|u: int| 0 <= u < old(hunk)@.len() ==> (#[trigger] old(hunk)@[u]) < edits@.len())
            ==> forall|u: int| 0 <= u < final(hunk)@.len() ==> (#[trigger] final(hunk)@[u]) < edits@.len(),
{
    let mut t: usize = lo;
    assert(idx_seq(hunk@) =~= idx_seq(old(hunk)@) + kept_between(edits@, lo as int, lo as int));
    if lo >= hi {
        assert(kept_between(edits@, lo as int, hi as int) =~= Seq::<int>::empty());
        assert(idx_seq(hunk@) =~= idx_seq(old(hunk)@) + kept_between(edits@, lo as int, hi as int));
        return;
    }
    while t < hi
        invariant
            lo <= t <= hi,
            hi <= edits@.len(),
            idx_seq(hunk@) == idx_seq(old(hunk)@) + kept_between(edits@, lo as int, t as int),
            old(hunk)@.len() <= hunk@.len(),
            forall|u: int| old(hunk)@.len() <= u < hunk@.len() ==> (#[trigger] hunk@[u]) < edits@.len(),
            forall|u: int| 0 <= u < old(hunk)@.len() ==> hunk@[u] == old(hunk)@[u],
        decreases hi - t,
    {
        let ghost before = hunk@;
        assert(kept_between(edits@, lo as int, t + 1) == kept_between(edits@, lo as int, t as int) + if is_equal(edits@[t as int]) {
            seq![t as int]
        } else {
            Seq::<int>::empty()
        });
        if matches!(edits[t], Edit::Equal(_, _)) {
            hunk.push(t);
            assert(idx_seq(hunk@) =~= idx_seq(before) + seq![t as int]);
        } else {
            assert(idx_seq(before) + Seq::<int>::empty() =~= idx_seq(before));
        }
        t += 1;
        assert(idx_seq(hunk@) =~= idx_seq(old(hunk)@) + kept_between(edits@, lo as int, t as int));
    }
}

/// Start and count of the lines of `a` and of `b` that a hunk's edits touch.
fn calculate_hunk_range(a: &[String], b: &[String], edits: &[Edit], hunk: &[usize]) -> (r: (usize, usize, usize, usize))
    ensures
        ({
            let rr = hunk_ranges(a@.len() as int, b@.len() as int, edits@, idx_seq(hunk@), hunk@.len() as int);
            &&& (r.0 as int, r.1 as int) == start_count(rr.0)
            &&& (r.2 as int, r.3 as int) == start_count(rr.1)
        }),
        r.0 == 0 || r.0 < a@.len(),
        r.2 == 0 || r.2 < b@.len(),
{
    let mut a_start: usize = 0;
    let mut a_end: usize = 0;
    let mut b_start: usize = 0;
    let mut b_end: usize = 0;
    let mut found_a = false;
    let mut found_b = false;
    let mut k: usize = 0;
    while k < hunk.len()
        invariant
            k <= hunk@.len(),
            ({
                let rr = hunk_ranges(a@.len() as int, b@.len() as int, edits@, idx_seq(hunk@), k as int);
                &&& (found_a ==> rr.0 == Some((a_start as int, a_end as int)) && a_start < a_end && a_end <= a@.len())
                &&& (!found_a ==> rr.0 is None)
                &&& (found_b ==> rr.1 == Some((b_start as int, b_end as int)) && b_start < b_end && b_end <= b@.len())
                &&& (!found_b ==> rr.1 is None)
            }),
        decreases hunk@.len() - k,
    {
        let idx = hunk[k];
        if idx < edits.len() {
            match edits[idx] {
                Edit::Equal(ai, bi) => {
                    if ai < a.len() {
                        if !found_a {
                            a_start = ai;
                            a_end = ai + 1;
                            found_a = true;
                        } else {
                            if ai < a_start {
                                a_start = ai;
                            }
                            if ai + 1 > a_end {
                                a_end = ai + 1;
                            }
                        }
                    }
                    if bi < b.len() {
                        if !found_b {
                            b_start = bi;
                            b_end = bi + 1;
                            found_b = true;
                        } else {
                            if bi < b_start {
                                b_start = bi;
                            }
                            if bi + 1 > b_end {
                                b_end = bi + 1;
                            }
                        }
                    }
                },
                Edit::Delete(ai) => {
                    if ai < a.len() {
                        if !found_a {
                            a_start = ai;
                            a_end = ai + 1;
                            found_a = true;
                        } else {
                            if ai < a_start {
                                a_start = ai;
                            }
                            if ai + 1 > a_end {
                                a_end = ai + 1;
                            }
                        }
                    }
                },
                Edit::Insert(bi) => {
                    if bi < b.len() {
                        if !found_b {
                            b_start = bi;
                            b_end = bi + 1;
                            found_b = true;
                        } else {
                            if bi < b_start {
                                b_start = bi;
                            }
                            if bi + 1 > b_end {
                                b_end = bi + 1;
                            }
                        }
                    }
                },
            }
        }
        k += 1;
    }
    if !found_a {
        a_start = 0;
        a_end = 0;
    }
    if !found_b {
        b_start = 0;
        b_end = 0;
    }
    (a_start, a_end - a_start, b_start, b_end - b_start)
}

/// Appends a marked line and a newline.
fn push_marked(result: &mut String, mark: char, line: &str)
    ensures
        final(result)@ == old(result)@ + seq![mark] + line@ + seq!['\n'],
{
    crate::text::push_char(result, mark);
    crate::text::push_str(result, line);
    crate::text::push_char(result, '\n');
}

/// Appends the decimal numeral of a count.
fn push_count(result: &mut String, n: usize)
    ensures
        final(result)@ == old(result)@ + crate::numeral::decimal(n as nat),
{
    let s = crate::numeral::format_decimal(n as u64);
    crate::text::push_str(result, s.as_str());
}

/// Appends every line behind a mark.
fn push_all_marked(result: &mut String, mark: char, lines: &[String])
    ensures
        final(result)@ == old(result)@ + marked_lines(mark, lines_view(lines@)),
{
    let mut i: usize = 0;
    assert(lines_view(lines@).take(0) =~= Seq::<Seq<char>>::empty());
    assert(old(result)@ + marked_lines(mark, Seq::<Seq<char>>::empty()) =~= old(result)@);
    while i < lines.len()
        invariant
            i <= lines@.len(),
            result@ == old(result)@ + marked_lines(mark, lines_view(lines@).take(i as int)),
        decreases lines@.len() - i,
    {
        let ghost before = result@;
        push_marked(result, mark, lines[i].as_str());
        proof {
            let t = lines_view(lines@).take(i + 1);
            assert(t.drop_last() =~= lines_view(lines@).take(i as int));
            assert(t.last() == lines@[i as int]@);
        }
        i += 1;
        assert(result@ =~= old(result)@ + marked_lines(mark, lines_view(lines@).take(i as int)));
    }
    assert(lines_view(lines@).take(lines@.len() as int) =~= lines_view(lines@));
}

/// The hunks of a script, as lists of positions in it.
#[verifier::rlimit(60)]
#[verifier::spinoff_prover]
fn group_hunks(edits: &[Edit], context_lines: usize) -> (hunks: Vec<Vec<usize>>)
    requires
        context_lines <= usize::MAX / 4,
        edits@.len() <= usize::MAX / 4,
    ensures
        hunks_view(hunks@) == hunks_of(edits@, context_lines as int),
        forall|q: int, t: int| 0 <= q < hunks@.len() && 0 <= t < hunks@[q]@.len() ==> (#[trigger] hunks@[q]@[t]) < edits@.len(),
{
    let ghost ev = edits@;
    let ghost ctx = context_lines as int;
    let mut hunks: Vec<Vec<usize>> = Vec::new();
    let mut current: Vec<usize> = Vec::new();
    let mut last_op_idx: usize = 0;
    let mut i: usize = 0;
    assert(hunks_view(hunks@) =~= Seq::<Seq<int>>::empty());
    assert(idx_seq(current@) =~= Seq::<int>::empty());
    while i < edits.len()
        invariant
            i <= edits@.len(),
            ev == edits@,
            ctx == context_lines as int,
            context_lines <= usize::MAX / 4,
            edits@.len() <= usize::MAX / 4,
            last_op_idx <= i,
            current@.len() > 0 ==> last_op_idx < i,
            (hunks_view(hunks@), idx_seq(current@), last_op_idx as int) == grouping(ev, ctx, i as int),
            forall|q: int, t: int| 0 <= q < hunks@.len() && 0 <= t < hunks@[q]@.len() ==> (#[trigger] hunks@[q]@[t]) < edits@.len(),
            forall|u: int| 0 <= u < current@.len() ==> (#[trigger] current@[u]) < edits@.len(),
        decreases edits@.len() - i,
    {
        match edits[i] {
            Edit::Equal(_, _) => {
                if current.len() > 0 && i - last_op_idx > context_lines * 2 {
                    push_trailing(edits, last_op_idx, context_lines, &mut current);
                    let ghost cur = current@;
                    let finished = current;
                    hunks.push(finished);
                    current = Vec::new();
                    proof {
                        assert(hunks_view(hunks@) =~= grouping(ev, ctx, i as int).0.push(idx_seq(cur)));
                        assert(idx_seq(current@) =~= Seq::<int>::empty());
                    }
                }
            },
            _ => {
                let ghost prev = idx_seq(current@);
                if current.len() == 0 {
                    let lo: usize = if i >= context_lines { i - context_lines } else { 0 };
                    push_kept(edits, lo, i, &mut current);
                    assert(idx_seq(current@) =~= kept_between(ev, lo as int, i as int));
                } else {
                    push_kept(edits, last_op_idx + 1, i, &mut current);
                }
                let ghost mid = idx_seq(current@);
                current.push(i);
                last_op_idx = i;
                assert(idx_seq(current@) =~= mid.push(i as int));
            },
        }
        i += 1;
    }
    if current.len() > 0 {
        push_trailing(edits, last_op_idx, context_lines, &mut current);
        let finished = current;
        hunks.push(finished);
        assert(hunks_view(hunks@) =~= hunks_of(ev, ctx));
    }
    hunks
}

/// Unified-diff text of a script from `a` to `b` with `context_lines` lines of context.
#[verifier::rlimit(60)]
#[verifier::spinoff_prover]
pub fn format_diff(a: &[String], b: &[String], edits: &[Edit], context_lines: usize) -> (s: String)
    requires
        context_lines <= usize::MAX / 4,
        edits@.len() <= usize::MAX / 4,
    ensures
        s@ == diff_text(lines_view(a@), lines_view(b@), edits@, context_lines as int),
{
    let mut result = String::new();
    if a.len() == 0 && b.len() > 0 {
        crate::text::push_str(&mut result, "@@ -0,0 +1,");
        push_count(&mut result, b.len());
        crate::text::push_str(&mut result, " @@\n");
        push_all_marked(&mut result, '+', b);
        return result;
    } else if a.len() > 0 && b.len() == 0 {
        crate::text::push_str(&mut result, "@@ -1,");
        push_count(&mut result, a.len());
        crate::text::push_str(&mut result, " +0,0 @@\n");
        push_all_marked(&mut result, '-', a);
        return result;
    } else if a.len() == 0 && b.len() == 0 {
        return result;
    }
    let ghost ev = edits@;
    let ghost ctx = context_lines as int;
    let hunks = group_hunks(edits, context_lines);
    let ghost hv = hunks_view(hunks@);
    assert(hv == hunks_of(ev, ctx));
    let mut h: usize = 0;
    assert(result@ =~= hunks_text(lines_view(a@), lines_view(b@), ev, hv, 0));
    while h < hunks.len()
        invariant
            h <= hunks@.len(),
            hv == hunks_view(hunks@),
            ev == edits@,
            forall|q: int, t: int| 0 <= q < hunks@.len() && 0 <= t < hunks@[q]@.len() ==> (#[trigger] hunks@[q]@[t]) < edits@.len(),
            result@ == hunks_text(lines_view(a@), lines_view(b@), ev, hv, h as int),
        decreases hunks@.len() - h,
    {
        let hunk = &hunks[h];
        let ghost before = result@;
        if hunk.len() > 0 {
            let (a_start, a_count, b_start, b_count) = calculate_hunk_range(a, b, edits, hunk.as_slice());
            let a_len = a.len();
            let b_len = b.len();
            crate::text::push_str(&mut result, "@@ -");
            push_count(&mut result, a_start + 1);
            crate::text::push_str(&mut result, ",");
            push_count(&mut result, a_count);
            crate::text::push_str(&mut result, " +");
            push_count(&mut result, b_start + 1);
            crate::text::push_str(&mut result, ",");
            push_count(&mut result, b_count);
            crate::text::push_str(&mut result, " @@\n");
            let ghost after_header = result@;
            let mut t: usize = 0;
            while t < hunk.len()
                invariant
                    t <= hunk@.len(),
                    forall|u: int| 0 <= u < hunk@.len() ==> (#[trigger] hunk@[u]) < edits@.len(),
                    result@ == after_header + hunk_lines(lines_view(a@), lines_view(b@), ev, idx_seq(hunk@), t as int),
                    ev == edits@,
                decreases hunk@.len() - t,
            {
                let idx = hunk[t];
                match edits[idx] {
                    Edit::Equal(ai, _) => {
                        if ai < a.len() {
                            push_marked(&mut result, ' ', a[ai].as_str());
                        }
                    },
                    Edit::Delete(ai) => {
                        if ai < a.len() {
                            push_marked(&mut result, '-', a[ai].as_str());
                        }
                    },
                    Edit::Insert(bi) => {
                        if bi < b.len() {
                            push_marked(&mut result, '+', b[bi].as_str());
                        }
                    },
                }
                t += 1;
            }
        }
        h += 1;
    }
    result
}

} // verus!
