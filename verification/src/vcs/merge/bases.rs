//! The merge bases of two commits: their best common ancestors, that is
//! the common ancestors that are no ancestor of another one. Which commits
//! are ancestors of which is asked of the caller, one commit at a time.
use vstd::prelude::*;
use crate::text::{texts, str_eq, copy_str};

verus! {

/// Whether `v` holds `x`.
fn holds(v: &Vec<String>, x: &str) -> (r: bool)
    ensures
        r == texts(v@).contains(x@),
{
    let mut i: usize = 0;
    while i < v.len()
        invariant
            i <= v@.len(),
            forall|j: int| 0 <= j < i ==> #[trigger] texts(v@)[j] != x@,
        decreases v@.len() - i,
    {
        if str_eq(v[i].as_str(), x) {
            assert(texts(v@)[i as int] == x@);
            return true;
        }
        i += 1;
    }
    false
}

/// The walk from a commit through first parents, listing each commit once:
/// the caller loads the commit that `next` names and hands back its parent.
pub struct AncestorWalk {
    listed: Vec<String>,
    current: Option<String>,
}

impl AncestorWalk {
    /// The commits listed so far, nearest first.
    pub closed spec fn listed_view(&self) -> Seq<Seq<char>> {
        texts(self.listed@)
    }

    /// The commit reached and not yet looked at, if any.
    pub closed spec fn current_view(&self) -> Option<Seq<char>> {
        match self.current {
            Some(c) => Some(c@),
            None => None,
        }
    }

    /// No commit is listed twice.
    pub closed spec fn wf(&self) -> bool {
        self.listed_view().no_duplicates()
    }

    /// A walk that starts at `oid`.
    pub fn new(oid: &str) -> (w: Self)
        ensures
            w.wf(),
            w.listed_view() == Seq::<Seq<char>>::empty(),
            w.current_view() == Some(oid@),
    {
        let w = AncestorWalk { listed: Vec::new(), current: Some(copy_str(oid)) };
        assert(w.listed_view() =~= Seq::<Seq<char>>::empty());
        w
    }

    /// The commit to load next: the commit reached, which is listed; none
    /// when no commit was reached or the one reached is listed already
    /// (the walk went round), which ends the walk.
    pub fn next(&mut self) -> (r: Option<String>)
        requires
            old(self).wf(),
        ensures
            final(self).wf(),
            match old(self).current_view() {
                Some(c) => if old(self).listed_view().contains(c) {
                    &&& r is None
                    &&& final(self).listed_view() == old(self).listed_view()
                    &&& final(self).current_view() is None
                } else {
                    &&& r matches Some(x) && x@ == c
                    &&& final(self).listed_view() == old(self).listed_view().push(c)
                    &&& final(self).current_view() is None
                },
                None => r is None && final(self).listed_view() == old(self).listed_view()
                    && final(self).current_view() is None,
            },
    {
        let c = match self.current.take() {
            Some(c) => c,
            None => {
                return None;
            },
        };
        if holds(&self.listed, c.as_str()) {
            return None;
        }
        let ghost before = self.listed@;
        proof {
            lemma_walk_lists_once(texts(before), c@);
        }
        self.listed.push(copy_str(c.as_str()));
        assert(texts(self.listed@) =~= texts(before).push(c@));
        Some(c)
    }

    /// Hands back the first parent of the commit loaded last (none for a
    /// root commit or an object that is no commit).
    pub fn parent_found(&mut self, parent: Option<String>)
        requires
            old(self).wf(),
        ensures
            final(self).wf(),
            final(self).listed_view() == old(self).listed_view(),
            final(self).current_view() == match parent {
                Some(p) => Some(p@),
                None => None::<Seq<char>>,
            },
    {
        self.current = parent;
    }

    /// The commits listed, nearest first, each once.
    pub fn ancestors(&self) -> (r: Vec<String>)
        requires
            self.wf(),
        ensures
            texts(r@) == self.listed_view(),
            texts(r@).no_duplicates(),
    {
        let r = crate::text::copy_strings_from(self.listed.as_slice(), 0);
        assert(texts(self.listed@).skip(0) =~= texts(self.listed@));
        r
    }
}

/// Listing a commit not listed yet lists none twice.
proof fn lemma_walk_lists_once(listed: Seq<Seq<char>>, c: Seq<char>)
    requires
        listed.no_duplicates(),
        !listed.contains(c),
    ensures
        listed.push(c).no_duplicates(),
{
    assert forall|i: int, j: int| 0 <= i < j < listed.push(c).len() implies listed.push(c)[i] != listed.push(c)[j] by {
        if j == listed.len() {
            assert(listed.contains(listed[i]));
        }
    }
}

/// Whether some list holds `x`.
pub open spec fn in_some(lists: Seq<Seq<Seq<char>>>, x: Seq<char>) -> bool {
    exists|i: int| 0 <= i < lists.len() && #[trigger] lists[i].contains(x)
}

/// The commits of `mine` (the ancestors of one commit, itself first) that
/// are also in one of `theirs` (the ancestors of the others): the common
/// ancestors, in the order of `mine`.
pub fn common_of(mine: &Vec<String>, theirs: &Vec<Vec<String>>) -> (r: Vec<String>)
    ensures
        texts(r@) == texts(mine@).filter(|x: Seq<char>| in_some(theirs@.map_values(|t: Vec<String>| texts(t@)), x)),
{
    let ghost ts = theirs@.map_values(|t: Vec<String>| texts(t@));
    let ghost pred = |x: Seq<char>| in_some(ts, x);
    let mut r: Vec<String> = Vec::new();
    let mut k: usize = 0;
    assert(texts(mine@).take(0).filter(pred) =~= Seq::<Seq<char>>::empty()) by {
        reveal(Seq::filter);
    }
    while k < mine.len()
        invariant
            k <= mine@.len(),
            ts == theirs@.map_values(|t: Vec<String>| texts(t@)),
            pred == (|x: Seq<char>| in_some(ts, x)),
            texts(r@) == texts(mine@).take(k as int).filter(pred),
        decreases mine@.len() - k,
    {
        let x = mine[k].as_str();
        let mut found = false;
        let mut t: usize = 0;
        while t < theirs.len()
            invariant
                t <= theirs@.len(),
                ts == theirs@.map_values(|t: Vec<String>| texts(t@)),
                found <==> exists|i: int| 0 <= i < t && #[trigger] ts[i].contains(x@),
            decreases theirs@.len() - t,
        {
            if holds(&theirs[t], x) {
                assert(ts[t as int] == texts(theirs@[t as int]@));
                found = true;
            } else {
                assert(ts[t as int] == texts(theirs@[t as int]@));
            }
            t += 1;
        }
        assert(found == in_some(ts, x@));
        let ghost before = texts(r@);
        assert(texts(mine@).take(k + 1).drop_last() =~= texts(mine@).take(k as int));
        assert(texts(mine@).take(k + 1).last() == x@);
        proof {
            reveal(Seq::filter);
        }
        if found {
            r.push(copy_str(x));
            assert(texts(r@) =~= before.push(x@));
        }
        k += 1;
    }
    assert(texts(mine@).take(mine@.len() as int) =~= texts(mine@));
    r
}

/// The commits of `commits` other than `c` that are not redundant, in order.
pub open spec fn others_of(commits: Seq<Seq<char>>, c: Seq<char>, redundant: Set<Seq<char>>) -> Seq<Seq<char>> {
    commits.filter(other_than(c, redundant))
}

/// Whether a commit is one of the others: not `c` and not redundant.
pub open spec fn other_than(c: Seq<char>, redundant: Set<Seq<char>>) -> spec_fn(Seq<char>) -> bool {
    |o: Seq<char>| o != c && !redundant.contains(o)
}

/// What one answer adds to the redundant commits, given the common
/// ancestors of the candidate `c` and the others: `c` when it is among
/// them (it is an ancestor of another candidate), and each of the others
/// that is among them (it is an ancestor of `c`).
pub open spec fn after_answer(redundant: Set<Seq<char>>, c: Seq<char>, others: Seq<Seq<char>>, common: Seq<Seq<char>>) -> Set<Seq<char>> {
    let with_c = if common.contains(c) { redundant.insert(c) } else { redundant };
    with_c.union(others.filter(|o: Seq<char>| common.contains(o)).to_set())
}

/// The search for the merge bases among the common ancestors of two
/// commits (`Bases::find`): each candidate not yet found redundant is
/// compared with the remaining others, in order.
pub struct Bases {
    commits: Vec<String>,
    redundant: Vec<String>,
    next: usize,
    asked: Option<(String, Vec<String>)>,
}

impl Bases {
    /// The common ancestors.
    pub closed spec fn commits_view(&self) -> Seq<Seq<char>> {
        texts(self.commits@)
    }

    /// The commits found redundant so far.
    pub closed spec fn redundant_view(&self) -> Set<Seq<char>> {
        texts(self.redundant@).to_set()
    }

    /// The position of the next candidate.
    pub closed spec fn next_view(&self) -> int {
        self.next as int
    }

    /// The question waiting for its answer: a candidate and the others.
    pub closed spec fn asked_view(&self) -> Option<(Seq<char>, Seq<Seq<char>>)> {
        match self.asked {
            Some((c, o)) => Some((c@, texts(o@))),
            None => None,
        }
    }

    /// The next candidate is within bounds.
    pub closed spec fn wf(&self) -> bool {
        self.next <= self.commits@.len()
    }

    /// A search among the common ancestors `commits`.
    pub fn new(commits: Vec<String>) -> (b: Self)
        ensures
            b.wf(),
            b.commits_view() == texts(commits@),
            b.redundant_view() == Set::<Seq<char>>::empty(),
            b.next_view() == 0,
            b.asked_view() is None,
    {
        let b = Bases { commits, redundant: Vec::new(), next: 0, asked: None };
        assert(texts(b.redundant@) =~= Seq::<Seq<char>>::empty());
        assert(b.redundant_view() =~= Set::<Seq<char>>::empty());
        b
    }

    /// The next question: the next candidate that is not redundant and has
    /// others to be compared with, and those others; none once every
    /// candidate was considered, or when there are fewer than two commits.
    pub fn next_question(&mut self) -> (q: Option<(String, Vec<String>)>)
        requires
            old(self).wf(),
            old(self).asked_view() is None,
        ensures
            final(self).wf(),
            final(self).commits_view() == old(self).commits_view(),
            final(self).redundant_view() == old(self).redundant_view(),
            final(self).next_view() >= old(self).next_view(),
            match q {
                Some((c, o)) => {
                    let k = final(self).next_view() - 1;
                    &&& 0 <= k < old(self).commits_view().len()
                    &&& c@ == old(self).commits_view()[k]
                    &&& !old(self).redundant_view().contains(c@)
                    &&& texts(o@) == others_of(old(self).commits_view(), c@, old(self).redundant_view())
                    &&& texts(o@).len() > 0
                    &&& final(self).asked_view() == Some((c@, texts(o@)))
                },
                None => final(self).asked_view() is None
                    && (old(self).commits_view().len() <= 1 || final(self).next_view() == old(self).commits_view().len()),
            },
    {
        if self.commits.len() <= 1 {
            return None;
        }
        while self.next < self.commits.len()
            invariant
                self.wf(),
                self.asked is None,
                self.commits_view() == old(self).commits_view(),
                self.redundant_view() == old(self).redundant_view(),
                self.next_view() >= old(self).next_view(),
            decreases self.commits@.len() - self.next,
        {
            let i = self.next;
            self.next = self.next + 1;
            let c = self.commits[i].as_str();
            if holds(&self.redundant, c) {
                continue;
            }
            let mut others: Vec<String> = Vec::new();
            let mut k: usize = 0;
            let ghost cs = texts(self.commits@);
            let ghost red = self.redundant_view();
            let ghost pred = other_than(c@, red);
            assert(cs.take(0).filter(pred) =~= Seq::<Seq<char>>::empty()) by {
                reveal(Seq::filter);
            }
            while k < self.commits.len()
                invariant
                    k <= self.commits@.len(),
                    cs == texts(self.commits@),
                    red == texts(self.redundant@).to_set(),
                    pred == other_than(c@, red),
                    texts(others@) == cs.take(k as int).filter(pred),
                decreases self.commits@.len() - k,
            {
                let o = self.commits[k].as_str();
                let keep = !str_eq(o, c) && !holds(&self.redundant, o);
                assert(cs.take(k + 1).drop_last() =~= cs.take(k as int));
                assert(cs.take(k + 1).last() == o@);
                proof {
                    reveal(Seq::filter);
                    assert(texts(self.redundant@).contains(o@) == red.contains(o@));
                }
                if keep {
                    let ghost before = texts(others@);
                    others.push(copy_str(o));
                    assert(texts(others@) =~= before.push(o@));
                }
                k += 1;
            }
            assert(cs.take(self.commits@.len() as int) =~= cs);
            if others.len() > 0 {
                let q_c = copy_str(c);
                let q_o = crate::text::copy_strings_from(others.as_slice(), 0);
                assert(texts(others@).skip(0) =~= texts(others@));
                self.asked = Some((copy_str(c), others));
                return Some((q_c, q_o));
            }
        }
        None
    }

    /// Takes the answer to the waiting question: the common ancestors of
    /// the candidate and the others.
    pub fn answer(&mut self, common: &Vec<String>)
        requires
            old(self).wf(),
            old(self).asked_view() is Some,
        ensures
            final(self).wf(),
            final(self).asked_view() is None,
            final(self).commits_view() == old(self).commits_view(),
            final(self).next_view() == old(self).next_view(),
            final(self).redundant_view() == after_answer(old(self).redundant_view(), (old(self).asked_view()->0).0,
                (old(self).asked_view()->0).1, texts(common@)),
    {
        let mut taken: Option<(String, Vec<String>)> = None;
        std::mem::swap(&mut taken, &mut self.asked);
        let (c, others) = match taken {
            Some(q) => q,
            None => {
                return;
            },
        };
        let ghost red0 = texts(self.redundant@);
        if holds(common, c.as_str()) {
            let ghost before = texts(self.redundant@);
            self.redundant.push(copy_str(c.as_str()));
            assert(texts(self.redundant@) =~= before.push(c@));
            proof {
                before.lemma_push_to_set_commute(c@);
            }
        }
        let ghost with_c = texts(self.redundant@);
        let ghost os = texts(others@);
        let ghost cm = texts(common@);
        let ghost pred = |o: Seq<char>| cm.contains(o);
        let mut k: usize = 0;
        assert(os.take(0).filter(pred) =~= Seq::<Seq<char>>::empty()) by {
            reveal(Seq::filter);
        }
        while k < others.len()
            invariant
                k <= others@.len(),
                self.asked is None,
                self.wf(),
                self.commits_view() == old(self).commits_view(),
                self.next == old(self).next,
                os == texts(others@),
                cm == texts(common@),
                pred == (|o: Seq<char>| cm.contains(o)),
                texts(self.redundant@) == with_c + os.take(k as int).filter(pred),
            decreases others@.len() - k,
        {
            let ghost before = texts(self.redundant@);
            assert(os.take(k + 1).drop_last() =~= os.take(k as int));
            assert(os.take(k + 1).last() == os[k as int]);
            proof {
                reveal(Seq::filter);
            }
            if holds(common, others[k].as_str()) {
                self.redundant.push(copy_str(others[k].as_str()));
                assert(texts(self.redundant@) =~= before.push(os[k as int]));
                assert(with_c + os.take(k + 1).filter(pred) =~= (with_c + os.take(k as int).filter(pred)).push(os[k as int]));
            } else {
                assert(os.take(k + 1).filter(pred) =~= os.take(k as int).filter(pred));
            }
            k += 1;
        }
        assert(os.take(others@.len() as int) =~= os);
        proof {
            vstd::seq_lib::seq_to_set_distributes_over_add(with_c, os.filter(pred));
        }
        assert(self.redundant_view() =~= after_answer(red0.to_set(), c@, os, cm));
    }

    /// The merge bases: the common ancestors not found redundant, in order.
    pub fn result(&self) -> (r: Vec<String>)
        ensures
            texts(r@) == self.commits_view().filter(|o: Seq<char>| !self.redundant_view().contains(o)),
    {
        let ghost cs = self.commits_view();
        let ghost red = self.redundant_view();
        let ghost pred = |o: Seq<char>| !red.contains(o);
        let mut r: Vec<String> = Vec::new();
        let mut k: usize = 0;
        assert(cs.take(0).filter(pred) =~= Seq::<Seq<char>>::empty()) by {
            reveal(Seq::filter);
        }
        while k < self.commits.len()
            invariant
                k <= self.commits@.len(),
                cs == texts(self.commits@),
                red == texts(self.redundant@).to_set(),
                pred == (|o: Seq<char>| !red.contains(o)),
                texts(r@) == cs.take(k as int).filter(pred),
            decreases self.commits@.len() - k,
        {
            let o = self.commits[k].as_str();
            assert(cs.take(k + 1).drop_last() =~= cs.take(k as int));
            assert(cs.take(k + 1).last() == o@);
            proof {
                reveal(Seq::filter);
            }
            if !holds(&self.redundant, o) {
                let ghost before = texts(r@);
                r.push(copy_str(o));
                assert(texts(r@) =~= before.push(o@));
            }
            k += 1;
        }
        assert(cs.take(self.commits@.len() as int) =~= cs);
        r
    }
}


/// `le` orders commits as "is an ancestor of, or is": reflexive,
/// transitive and antisymmetric.
pub open spec fn ancestry_order(le: spec_fn(Seq<char>, Seq<char>) -> bool) -> bool {
    &&& forall|x: Seq<char>| #[trigger] le(x, x)
    &&& forall|x: Seq<char>, y: Seq<char>, z: Seq<char>| #[trigger] le(x, y) && #[trigger] le(y, z) ==> le(x, z)
    &&& forall|x: Seq<char>, y: Seq<char>| #[trigger] le(x, y) && le(y, x) ==> x == y
}

/// The answer a candidate `c` gets when the common ancestors are told by
/// `le`: `c` is among them when it is an ancestor of one of the others, and
/// each other one is among them when it is an ancestor of `c`.
pub open spec fn truthful(common: Seq<Seq<char>>, c: Seq<char>, others: Seq<Seq<char>>,
    le: spec_fn(Seq<char>, Seq<char>) -> bool) -> bool {
    &&& common.contains(c) <==> exists|i: int| 0 <= i < others.len() && le(c, #[trigger] others[i])
    &&& forall|i: int| 0 <= i < others.len() ==> (common.contains(#[trigger] others[i]) <==> le(others[i], c))
}

/// What a truthful answer adds to the redundant commits.
pub open spec fn marked(redundant: Set<Seq<char>>, c: Seq<char>, others: Seq<Seq<char>>,
    le: spec_fn(Seq<char>, Seq<char>) -> bool) -> Set<Seq<char>> {
    let with_c = if exists|i: int| 0 <= i < others.len() && le(c, #[trigger] others[i]) {
        redundant.insert(c)
    } else {
        redundant
    };
    with_c.union(Set::new(|o: Seq<char>| others.contains(o) && le(o, c)))
}

/// A truthful answer marks what `marked` says.
pub proof fn lemma_truthful_answer(redundant: Set<Seq<char>>, c: Seq<char>, others: Seq<Seq<char>>,
    common: Seq<Seq<char>>, le: spec_fn(Seq<char>, Seq<char>) -> bool)
    requires
        truthful(common, c, others, le),
    ensures
        after_answer(redundant, c, others, common) == marked(redundant, c, others, le),
{
    let f = others.filter(|o: Seq<char>| common.contains(o));
    assert forall|o: Seq<char>| f.to_set().contains(o) <==> (others.contains(o) && le(o, c)) by {
        if others.contains(o) && le(o, c) {
            let i = choose|i: int| 0 <= i < others.len() && others[i] == o;
            assert(common.contains(others[i]));
            others.lemma_filter_contains(|o: Seq<char>| common.contains(o), i);
        }
        if f.to_set().contains(o) {
            assert(f.contains(o));
            others.lemma_filter_contains_rev(|o: Seq<char>| common.contains(o), o);
            let j = choose|j: int| 0 <= j < f.len() && f[j] == o;
            others.lemma_filter_pred(|o: Seq<char>| common.contains(o), j);
            let i = choose|i: int| 0 <= i < others.len() && others[i] == o;
            assert(common.contains(others[i]));
        }
    }
    let with_c = if common.contains(c) { redundant.insert(c) } else { redundant };
    assert(f == others.filter(|o: Seq<char>| common.contains(o)));
    assert(after_answer(redundant, c, others, common) == with_c.union(f.to_set()));
    assert(f.to_set() =~= Set::new(|o: Seq<char>| others.contains(o) && le(o, c)));
    assert(after_answer(redundant, c, others, common) =~= marked(redundant, c, others, le));
}

/// The redundant commits once the candidates from position `k` on are
/// considered, each getting a truthful answer, as `next_question` and
/// `answer` go: a candidate already redundant, or with no other left, is
/// passed over.
pub open spec fn search_from(commits: Seq<Seq<char>>, le: spec_fn(Seq<char>, Seq<char>) -> bool, k: int,
    redundant: Set<Seq<char>>) -> Set<Seq<char>>
    decreases commits.len() - k,
{
    if k < 0 || k >= commits.len() {
        redundant
    } else {
        let c = commits[k];
        let others = others_of(commits, c, redundant);
        if redundant.contains(c) || others.len() == 0 {
            search_from(commits, le, k + 1, redundant)
        } else {
            search_from(commits, le, k + 1, marked(redundant, c, others, le))
        }
    }
}

/// The merge bases the search gives among the common ancestors `commits`.
pub open spec fn bases_of(commits: Seq<Seq<char>>, le: spec_fn(Seq<char>, Seq<char>) -> bool) -> Seq<Seq<char>> {
    if commits.len() <= 1 {
        commits
    } else {
        commits.filter(not_in(search_from(commits, le, 0, Set::empty())))
    }
}

/// Whether a commit is outside a set.
pub open spec fn not_in(red: Set<Seq<char>>) -> spec_fn(Seq<char>) -> bool {
    |o: Seq<char>| !red.contains(o)
}

/// What holds while the search goes: redundant commits are common
/// ancestors below some commit not redundant; the candidates considered
/// and kept are not comparable with any other commit kept.
pub open spec fn search_inv(commits: Seq<Seq<char>>, le: spec_fn(Seq<char>, Seq<char>) -> bool, k: int,
    red: Set<Seq<char>>) -> bool {
    &&& forall|x: Seq<char>| #[trigger] red.contains(x) ==> commits.contains(x)
    &&& forall|x: Seq<char>| #[trigger] red.contains(x) ==>
        exists|r: Seq<char>| commits.contains(r) && !red.contains(r) && #[trigger] le(x, r)
    &&& forall|i: int, o: Seq<char>| 0 <= i < k && i < commits.len() && !red.contains(#[trigger] commits[i])
        && #[trigger] commits.contains(o) && !red.contains(o) && o != commits[i]
        ==> !le(o, commits[i]) && !le(commits[i], o)
}

proof fn lemma_search_step(commits: Seq<Seq<char>>, le: spec_fn(Seq<char>, Seq<char>) -> bool, k: int,
    red: Set<Seq<char>>)
    requires
        ancestry_order(le),
        0 <= k < commits.len(),
        search_inv(commits, le, k, red),
    ensures
        ({
            let c = commits[k];
            let others = others_of(commits, c, red);
            let red2 = if red.contains(c) || others.len() == 0 { red } else { marked(red, c, others, le) };
            search_inv(commits, le, k + 1, red2)
        }),
{
    let c = commits[k];
    let others = others_of(commits, c, red);
    let pred = other_than(c, red);
    assert forall|o: Seq<char>| others.contains(o) <==> (commits.contains(o) && o != c && !red.contains(o)) by {
        if commits.contains(o) && o != c && !red.contains(o) {
            let i = choose|i: int| 0 <= i < commits.len() && commits[i] == o;
            commits.lemma_filter_contains(pred, i);
        }
        if others.contains(o) {
            commits.lemma_filter_contains_rev(pred, o);
            let j = choose|j: int| 0 <= j < others.len() && others[j] == o;
            commits.lemma_filter_pred(pred, j);
        }
    }
    if red.contains(c) || others.len() == 0 {
        assert forall|i: int, o: Seq<char>| 0 <= i < k + 1 && i < commits.len() && !red.contains(#[trigger] commits[i])
            && #[trigger] commits.contains(o) && !red.contains(o) && o != commits[i]
            implies !le(o, commits[i]) && !le(commits[i], o) by {
            if i == k {
                assert(others.contains(o));
            }
        }
    } else {
        let red2 = marked(red, c, others, le);
        let up = exists|i: int| 0 <= i < others.len() && le(c, #[trigger] others[i]);
        // every newly marked commit is below one left unmarked
        assert forall|y: Seq<char>| red2.contains(y) && !red.contains(y) implies
            exists|r: Seq<char>| commits.contains(r) && !red2.contains(r) && #[trigger] le(y, r) by {
            if up {
                let i1 = choose|i: int| 0 <= i < others.len() && le(c, #[trigger] others[i]);
                let o1 = others[i1];
                assert(others.contains(o1));
                if red2.contains(o1) {
                    assert(le(o1, c));
                    assert(o1 == c);
                }
                if y == c {
                    assert(le(y, o1));
                } else {
                    assert(le(y, c));
                    assert(le(y, o1));
                }
            } else {
                assert(y != c);
                assert(le(y, c));
                assert(!red2.contains(c));
                assert(commits.contains(c));
            }
        }
        assert forall|x: Seq<char>| #[trigger] red2.contains(x) implies commits.contains(x) by {
            if !red.contains(x) && x != c {
                assert(others.contains(x));
            }
        }
        assert forall|x: Seq<char>| #[trigger] red2.contains(x) implies
            exists|r: Seq<char>| commits.contains(r) && !red2.contains(r) && #[trigger] le(x, r) by {
            if red.contains(x) {
                let r = choose|r: Seq<char>| commits.contains(r) && !red.contains(r) && #[trigger] le(x, r);
                if red2.contains(r) {
                    let r2 = choose|r2: Seq<char>| commits.contains(r2) && !red2.contains(r2) && #[trigger] le(r, r2);
                    assert(le(x, r2));
                }
            }
        }
        assert forall|i: int, o: Seq<char>| 0 <= i < k + 1 && i < commits.len() && !red2.contains(#[trigger] commits[i])
            && #[trigger] commits.contains(o) && !red2.contains(o) && o != commits[i]
            implies !le(o, commits[i]) && !le(commits[i], o) by {
            if i == k {
                assert(others.contains(o));
                if le(c, o) {
                    let j = choose|j: int| 0 <= j < others.len() && others[j] == o;
                    assert(le(c, others[j]));
                }
            }
        }
    }
}

proof fn lemma_search_from(commits: Seq<Seq<char>>, le: spec_fn(Seq<char>, Seq<char>) -> bool, k: int,
    red: Set<Seq<char>>)
    requires
        ancestry_order(le),
        0 <= k <= commits.len(),
        search_inv(commits, le, k, red),
    ensures
        search_inv(commits, le, commits.len() as int, search_from(commits, le, k, red)),
    decreases commits.len() - k,
{
    if k < commits.len() {
        lemma_search_step(commits, le, k, red);
        let c = commits[k];
        let others = others_of(commits, c, red);
        if red.contains(c) || others.len() == 0 {
            lemma_search_from(commits, le, k + 1, red);
        } else {
            lemma_search_from(commits, le, k + 1, marked(red, c, others, le));
        }
    }
}

/// Keeping some elements of a list without repeats gives no repeats.
proof fn lemma_filter_no_duplicates(s: Seq<Seq<char>>, pred: spec_fn(Seq<char>) -> bool)
    requires
        s.no_duplicates(),
    ensures
        s.filter(pred).no_duplicates(),
    decreases s.len(),
{
    reveal(Seq::filter);
    if s.len() > 0 {
        let rest = s.drop_last();
        assert(rest.no_duplicates()) by {
            assert forall|i: int, j: int| 0 <= i < rest.len() && 0 <= j < rest.len() && i != j implies rest[i] != rest[j] by {
                assert(rest[i] == s[i] && rest[j] == s[j]);
            }
        }
        lemma_filter_no_duplicates(rest, pred);
        let f = rest.filter(pred);
        if pred(s.last()) {
            if f.contains(s.last()) {
                rest.lemma_filter_contains_rev(pred, s.last());
                let i = choose|i: int| 0 <= i < rest.len() && rest[i] == s.last();
                assert(s[i] == s[s.len() - 1]);
            }
            assert forall|i: int, j: int| 0 <= i < f.push(s.last()).len() && 0 <= j < f.push(s.last()).len() && i != j
                implies f.push(s.last())[i] != f.push(s.last())[j] by {
                if i < f.len() && j < f.len() {
                } else if i == f.len() {
                    assert(f.contains(f[j]));
                } else {
                    assert(f.contains(f[i]));
                }
            }
        }
    }
}

/// The commits kept by `not_in(red)` are those outside `red`.
proof fn lemma_not_in_members(commits: Seq<Seq<char>>, red: Set<Seq<char>>)
    ensures
        forall|x: Seq<char>| #[trigger] commits.filter(not_in(red)).contains(x) <==> (commits.contains(x) && !red.contains(x)),
{
    let pred = not_in(red);
    let bs = commits.filter(pred);
    assert forall|x: Seq<char>| #[trigger] bs.contains(x) <==> (commits.contains(x) && !red.contains(x)) by {
        if commits.contains(x) && !red.contains(x) {
            let i = choose|i: int| 0 <= i < commits.len() && commits[i] == x;
            commits.lemma_filter_contains(pred, i);
        }
        if bs.contains(x) {
            commits.lemma_filter_contains_rev(pred, x);
            let j = choose|j: int| 0 <= j < bs.len() && bs[j] == x;
            commits.lemma_filter_pred(pred, j);
        }
    }
}

/// With two or more common ancestors, the search's end state gives the law.
proof fn lemma_bases_many(commits: Seq<Seq<char>>, le: spec_fn(Seq<char>, Seq<char>) -> bool, red: Set<Seq<char>>)
    requires
        ancestry_order(le),
        commits.no_duplicates(),
        search_inv(commits, le, commits.len() as int, red),
    ensures
        ({
            let bs = commits.filter(not_in(red));
            &&& bs.no_duplicates()
            &&& forall|x: Seq<char>| #[trigger] bs.contains(x) ==> commits.contains(x)
            &&& forall|x: Seq<char>, y: Seq<char>| #[trigger] bs.contains(x) && #[trigger] bs.contains(y) && x != y ==> !le(x, y)
            &&& forall|c: Seq<char>| #[trigger] commits.contains(c) ==> exists|r: Seq<char>| bs.contains(r) && #[trigger] le(c, r)
        }),
{
    let bs = commits.filter(not_in(red));
    lemma_filter_no_duplicates(commits, not_in(red));
    lemma_not_in_members(commits, red);
    assert forall|x: Seq<char>, y: Seq<char>| #[trigger] bs.contains(x) && #[trigger] bs.contains(y) && x != y
        implies !le(x, y) by {
        let i = choose|i: int| 0 <= i < commits.len() && commits[i] == x;
        assert(!red.contains(commits[i]));
        assert(commits.contains(y));
    }
    assert forall|c: Seq<char>| #[trigger] commits.contains(c) implies
        exists|r: Seq<char>| bs.contains(r) && #[trigger] le(c, r) by {
        if red.contains(c) {
            let r = choose|r: Seq<char>| commits.contains(r) && !red.contains(r) && #[trigger] le(c, r);
            assert(bs.contains(r));
        } else {
            assert(le(c, c));
            assert(bs.contains(c));
        }
    }
}

/// The merge-base search, with truthful answers about an ancestry order,
/// finds best common ancestors: the bases are among the common ancestors,
/// with no repeats, none is an ancestor of another, and every common
/// ancestor is an ancestor of (or is) one of them.
pub proof fn lemma_bases_are_best(commits: Seq<Seq<char>>, le: spec_fn(Seq<char>, Seq<char>) -> bool)
    requires
        ancestry_order(le),
        commits.no_duplicates(),
    ensures
        bases_of(commits, le).no_duplicates(),
        forall|x: Seq<char>| #[trigger] bases_of(commits, le).contains(x) ==> commits.contains(x),
        forall|x: Seq<char>, y: Seq<char>| #[trigger] bases_of(commits, le).contains(x)
            && #[trigger] bases_of(commits, le).contains(y) && x != y ==> !le(x, y),
        forall|c: Seq<char>| #[trigger] commits.contains(c) ==>
            exists|r: Seq<char>| bases_of(commits, le).contains(r) && #[trigger] le(c, r),
{
    if commits.len() <= 1 {
        lemma_bases_few(commits, le);
    } else {
        let empty = Set::<Seq<char>>::empty();
        lemma_search_start(commits, le);
        lemma_search_from(commits, le, 0, empty);
        lemma_bases_many(commits, le, search_from(commits, le, 0, empty));
    }
}

/// The search starts with its invariant.
proof fn lemma_search_start(commits: Seq<Seq<char>>, le: spec_fn(Seq<char>, Seq<char>) -> bool)
    ensures
        search_inv(commits, le, 0, Set::<Seq<char>>::empty()),
{
}

/// With at most one common ancestor, it is the base.
proof fn lemma_bases_few(commits: Seq<Seq<char>>, le: spec_fn(Seq<char>, Seq<char>) -> bool)
    requires
        ancestry_order(le),
        commits.len() <= 1,
    ensures
        forall|x: Seq<char>, y: Seq<char>| #[trigger] commits.contains(x) && #[trigger] commits.contains(y) && x != y ==> !le(x, y),
        forall|c: Seq<char>| #[trigger] commits.contains(c) ==> exists|r: Seq<char>| commits.contains(r) && #[trigger] le(c, r),
{
    assert forall|c: Seq<char>| #[trigger] commits.contains(c) implies
        exists|r: Seq<char>| commits.contains(r) && #[trigger] le(c, r) by {
        assert(le(c, c));
    }
    assert forall|x: Seq<char>, y: Seq<char>| #[trigger] commits.contains(x) && #[trigger] commits.contains(y) && x != y
        implies !le(x, y) by {
        let i = choose|i: int| 0 <= i < commits.len() && commits[i] == x;
        let j = choose|j: int| 0 <= j < commits.len() && commits[j] == y;
    }
}

} // verus!
