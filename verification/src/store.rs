//! The term store: levels, missions, terms, and the saved-flag logic.

use vstd::prelude::*;

verus! {

/// One vocabulary entry: two interchangeable faces and a persisted
/// review flag.
#[derive(Debug, PartialEq)]
pub struct Term {
    pub hanzi: String,
    pub pinyin: String,
    pub saved: bool,
}

impl Term {
    /// Flip the review flag; both faces are untouched.
    pub fn toggle_save(&mut self)
        ensures
            *final(self) == toggled(*old(self)),
            final(self).saved == !old(self).saved,
            final(self).hanzi == old(self).hanzi,
            final(self).pinyin == old(self).pinyin,
    {
        self.saved = !self.saved;
    }
}

/// A term with its review flag flipped.
pub open spec fn toggled(t: Term) -> Term {
    Term { saved: !t.saved, hanzi: t.hanzi, pinyin: t.pinyin }
}

/// Law: toggling the review flag is an involution — toggling a term
/// twice returns it to its original value.
pub proof fn lemma_toggle_involution(t: Term)
    ensures
        toggled(toggled(t)) == t,
{
}

impl Clone for Term {
    fn clone(&self) -> (r: Self)
        ensures
            r == *self,
    {
        Term { hanzi: self.hanzi.clone(), pinyin: self.pinyin.clone(), saved: self.saved }
    }
}

/// A lesson unit: a 1-based id and its ordered terms.
#[derive(Debug, PartialEq)]
pub struct Mission {
    pub id: i8,
    pub terms: Vec<Term>,
}

/// A proficiency grouping: a 1-based id and its ordered missions.
#[derive(Debug, PartialEq)]
pub struct HskLevel {
    pub level: i8,
    pub missions: Vec<Mission>,
}

/// Position of one term inside a store: indices of its level, of its
/// mission within that level, and of the term within that mission.
#[derive(Clone, Copy, PartialEq, Eq, Structural)]
pub struct TermPos {
    pub level: usize,
    pub mission: usize,
    pub term: usize,
}

/// The position denotes an existing term of the store.
pub open spec fn pos_valid(ls: Seq<HskLevel>, p: TermPos) -> bool {
    &&& p.level < ls.len()
    &&& p.mission < ls[p.level as int].missions@.len()
    &&& p.term < ls[p.level as int].missions@[p.mission as int].terms@.len()
}

/// The term that a valid position denotes.
pub open spec fn term_at(ls: Seq<HskLevel>, p: TermPos) -> Term {
    ls[p.level as int].missions@[p.mission as int].terms@[p.term as int]
}

/// All terms of a run of missions, in document traversal order.
pub open spec fn missions_terms(ms: Seq<Mission>) -> Seq<Term>
    decreases ms.len(),
{
    if ms.len() == 0 {
        Seq::empty()
    } else {
        missions_terms(ms.drop_last()) + ms.last().terms@
    }
}

/// All terms of a store, in document traversal order.
pub open spec fn store_terms(ls: Seq<HskLevel>) -> Seq<Term>
    decreases ls.len(),
{
    if ls.len() == 0 {
        Seq::empty()
    } else {
        store_terms(ls.drop_last()) + missions_terms(ls.last().missions@)
    }
}

/// The subsequence of terms whose review flag is set, order kept.
pub open spec fn saved_of(ts: Seq<Term>) -> Seq<Term> {
    ts.filter(|t: Term| t.saved)
}

/// The cross-cutting aggregate view: every saved term of the store, in
/// document traversal order.
pub open spec fn saved_view(ls: Seq<HskLevel>) -> Seq<Term> {
    saved_of(store_terms(ls))
}

/// Ids are dense, 1-based, and equal to their position in the containing
/// sequence; selection logic resolves labels back to positions through
/// this identity.
pub open spec fn store_wf(ls: Seq<HskLevel>) -> bool {
    forall|i: int|
        0 <= i < ls.len() ==> {
            &&& (#[trigger] ls[i]).level as int == i + 1
            &&& mission_ids_ok(ls[i].missions@)
        }
}

/// Mission ids are dense and 1-based within their level.
pub open spec fn mission_ids_ok(ms: Seq<Mission>) -> bool {
    forall|j: int| 0 <= j < ms.len() ==> (#[trigger] ms[j]).id as int == j + 1
}

fn missions_ids_valid(ms: &Vec<Mission>) -> (r: bool)
    ensures
        r == mission_ids_ok(ms@),
{
    let mut j: usize = 0;
    while j < ms.len()
        invariant
            j <= ms@.len(),
            forall|k: int| 0 <= k < j ==> (#[trigger] ms@[k]).id as int == k + 1,
        decreases ms@.len() - j,
    {
        let m = &ms[j];
        if m.id <= 0 || (m.id as usize) != j + 1 {
            return false;
        }
        j += 1;
    }
    true
}

/// Check the load-time invariant: level and mission ids must equal their
/// 1-based positions. A document that fails this is malformed.
pub fn validate_store(levels: &Vec<HskLevel>) -> (r: bool)
    ensures
        r == store_wf(levels@),
{
    let mut i: usize = 0;
    while i < levels.len()
        invariant
            i <= levels@.len(),
            forall|k: int|
                0 <= k < i ==> {
                    &&& (#[trigger] levels@[k]).level as int == k + 1
                    &&& mission_ids_ok(levels@[k].missions@)
                },
        decreases levels@.len() - i,
    {
        let l = &levels[i];
        if l.level <= 0 || (l.level as usize) != i + 1 {
            return false;
        }
        if !missions_ids_valid(&l.missions) {
            return false;
        }
        i += 1;
    }
    true
}

/// The stores agree everywhere except that the term at `p` has its saved
/// flag flipped; its faces and all other terms, ids and shapes are kept.
pub open spec fn store_toggled_at(old_ls: Seq<HskLevel>, new_ls: Seq<HskLevel>, p: TermPos) -> bool {
    &&& new_ls.len() == old_ls.len()
    &&& forall|i: int| 0 <= i < old_ls.len() && i != p.level ==> new_ls[i] == old_ls[i]
    &&& new_ls[p.level as int].level == old_ls[p.level as int].level
    &&& new_ls[p.level as int].missions@.len() == old_ls[p.level as int].missions@.len()
    &&& forall|j: int|
        0 <= j < old_ls[p.level as int].missions@.len() && j != p.mission
            ==> new_ls[p.level as int].missions@[j] == old_ls[p.level as int].missions@[j]
    &&& new_ls[p.level as int].missions@[p.mission as int].id == old_ls[p.level as int].missions@[
        p.mission as int].id
    &&& new_ls[p.level as int].missions@[p.mission as int].terms@.len() == old_ls[
        p.level as int].missions@[p.mission as int].terms@.len()
    &&& forall|k: int|
        0 <= k < old_ls[p.level as int].missions@[p.mission as int].terms@.len() && k != p.term
            ==> new_ls[p.level as int].missions@[p.mission as int].terms@[k] == old_ls[
            p.level as int].missions@[p.mission as int].terms@[k]
    &&& term_at(new_ls, p).hanzi == term_at(old_ls, p).hanzi
    &&& term_at(new_ls, p).pinyin == term_at(old_ls, p).pinyin
    &&& term_at(new_ls, p).saved == !term_at(old_ls, p).saved
}

/// Flip the saved flag of the term at `p`, leaving every other part of
/// the store unchanged.
pub fn toggle_at(levels: &mut Vec<HskLevel>, p: TermPos)
    requires
        pos_valid(old(levels)@, p),
    ensures
        store_toggled_at(old(levels)@, final(levels)@, p),
{
    let l: &mut HskLevel = &mut levels[p.level];
    let m: &mut Mission = &mut l.missions[p.mission];
    let t: &mut Term = &mut m.terms[p.term];
    t.toggle_save();
}

/// Toggling one saved flag keeps the store's shape, so every position
/// that was valid stays valid.
pub proof fn lemma_toggle_preserves_pos_valid(
    old_ls: Seq<HskLevel>,
    new_ls: Seq<HskLevel>,
    p: TermPos,
    q: TermPos,
)
    requires
        store_toggled_at(old_ls, new_ls, p),
        pos_valid(old_ls, q),
    ensures
        pos_valid(new_ls, q),
{
}

/// Law: toggling the saved flag at the same position twice leaves every
/// term of the store as it was.
pub proof fn lemma_store_toggle_involution(
    a: Seq<HskLevel>,
    b: Seq<HskLevel>,
    c: Seq<HskLevel>,
    p: TermPos,
)
    requires
        pos_valid(a, p),
        store_toggled_at(a, b, p),
        store_toggled_at(b, c, p),
    ensures
        c.len() == a.len(),
        forall|q: TermPos|
            pos_valid(a, q) ==> pos_valid(c, q) && term_at(c, q) == term_at(a, q),
{
    assert forall|q: TermPos|
        pos_valid(a, q) implies pos_valid(c, q) && term_at(c, q) == term_at(a, q) by {
        lemma_toggle_preserves_pos_valid(a, b, p, q);
        lemma_toggle_preserves_pos_valid(b, c, p, q);
        if q.level != p.level {
            assert(c[q.level as int] == a[q.level as int]);
        } else if q.mission != p.mission {
            assert(c[q.level as int].missions@[q.mission as int] == a[q.level as int].missions@[
                q.mission as int]);
        } else if q.term != p.term {
            assert(term_at(c, q) == term_at(a, q));
        } else {
            assert(term_at(c, q).hanzi == term_at(a, q).hanzi);
            assert(term_at(c, q).pinyin == term_at(a, q).pinyin);
            assert(term_at(c, q).saved == term_at(a, q).saved);
        }
    }
}

/// Borrow the term that a valid position denotes.
pub fn term_ref<'a>(levels: &'a Vec<HskLevel>, p: TermPos) -> (r: &'a Term)
    requires
        pos_valid(levels@, p),
    ensures
        *r == term_at(levels@, p),
{
    &levels[p.level].missions[p.mission].terms[p.term]
}

/// Document traversal order on positions: by level, then mission, then
/// term index.
pub open spec fn pos_lt(a: TermPos, b: TermPos) -> bool {
    ||| a.level < b.level
    ||| (a.level == b.level && a.mission < b.mission)
    ||| (a.level == b.level && a.mission == b.mission && a.term < b.term)
}

proof fn lemma_missions_terms_take_step(ms: Seq<Mission>, j: int)
    requires
        0 <= j < ms.len(),
    ensures
        missions_terms(ms.take(j + 1)) == missions_terms(ms.take(j)) + ms[j].terms@,
{
    assert(ms.take(j + 1).drop_last() =~= ms.take(j));
    assert(ms.take(j + 1).last() == ms[j]);
}

proof fn lemma_store_terms_take_step(ls: Seq<HskLevel>, i: int)
    requires
        0 <= i < ls.len(),
    ensures
        store_terms(ls.take(i + 1)) == store_terms(ls.take(i)) + missions_terms(ls[i].missions@),
{
    assert(ls.take(i + 1).drop_last() =~= ls.take(i));
    assert(ls.take(i + 1).last() == ls[i]);
}

proof fn lemma_saved_of_add(a: Seq<Term>, b: Seq<Term>)
    ensures
        saved_of(a + b) == saved_of(a) + saved_of(b),
{
    broadcast use Seq::filter_distributes_over_add;

}

proof fn lemma_saved_of_push(ts: Seq<Term>, t: Term)
    ensures
        saved_of(ts.push(t)) == if t.saved {
            saved_of(ts).push(t)
        } else {
            saved_of(ts)
        },
{
    broadcast use Seq::lemma_filter_push;

}

proof fn lemma_saved_of_empty()
    ensures
        saved_of(Seq::<Term>::empty()) == Seq::<Term>::empty(),
{
    reveal(Seq::filter);
}

/// Where the term at `p` stands in the store's term traversal.
pub open spec fn flat_index(ls: Seq<HskLevel>, p: TermPos) -> int {
    store_terms(ls.take(p.level as int)).len() + missions_terms(
        ls[p.level as int].missions@.take(p.mission as int),
    ).len() + p.term
}

proof fn lemma_missions_terms_take_mono(ms: Seq<Mission>, j1: int, j2: int)
    requires
        0 <= j1 <= j2 <= ms.len(),
    ensures
        missions_terms(ms.take(j1)).len() <= missions_terms(ms.take(j2)).len(),
    decreases j2 - j1,
{
    if j1 < j2 {
        lemma_missions_terms_take_mono(ms, j1, j2 - 1);
        lemma_missions_terms_take_step(ms, j2 - 1);
    }
}

proof fn lemma_missions_terms_update(ms_a: Seq<Mission>, ms_b: Seq<Mission>, mj: int, tk: int, v: Term)
    requires
        ms_a.len() == ms_b.len(),
        0 <= mj < ms_a.len(),
        0 <= tk < ms_a[mj].terms@.len(),
        forall|j: int| 0 <= j < ms_a.len() && j != mj ==> ms_b[j] == ms_a[j],
        ms_b[mj].terms@ == ms_a[mj].terms@.update(tk, v),
    ensures
        missions_terms(ms_b) == missions_terms(ms_a).update(
            missions_terms(ms_a.take(mj)).len() + tk,
            v,
        ),
        missions_terms(ms_a.take(mj)).len() + tk < missions_terms(ms_a).len(),
    decreases ms_a.len(),
{
    let off = missions_terms(ms_a.take(mj)).len() as int;
    if mj == ms_a.len() - 1 {
        assert(ms_b.drop_last() =~= ms_a.drop_last());
        assert(ms_a.take(mj) =~= ms_a.drop_last());
        let x = missions_terms(ms_a.drop_last());
        let y = ms_a.last().terms@;
        assert(missions_terms(ms_b) == x + y.update(tk, v));
        assert(x + y.update(tk, v) =~= (x + y).update(off + tk, v));
    } else {
        lemma_missions_terms_update(ms_a.drop_last(), ms_b.drop_last(), mj, tk, v);
        assert(ms_a.drop_last().take(mj) =~= ms_a.take(mj));
        assert(ms_b.last() == ms_a.last());
        lemma_missions_terms_take_mono(ms_a.drop_last(), mj + 1, ms_a.len() - 1);
        lemma_missions_terms_take_step(ms_a.drop_last(), mj);
        assert(ms_a.drop_last().take(mj + 1).drop_last() =~= ms_a.drop_last().take(mj));
        assert(ms_a.drop_last().take(ms_a.len() - 1) =~= ms_a.drop_last());
        let x = missions_terms(ms_a.drop_last());
        let y = ms_a.last().terms@;
        assert(off + tk < x.len());
        assert(missions_terms(ms_b) == x.update(off + tk, v) + y);
        assert(x.update(off + tk, v) + y =~= (x + y).update(off + tk, v));
    }
}

proof fn lemma_store_terms_take_mono(ls: Seq<HskLevel>, i1: int, i2: int)
    requires
        0 <= i1 <= i2 <= ls.len(),
    ensures
        store_terms(ls.take(i1)).len() <= store_terms(ls.take(i2)).len(),
    decreases i2 - i1,
{
    if i1 < i2 {
        lemma_store_terms_take_mono(ls, i1, i2 - 1);
        lemma_store_terms_take_step(ls, i2 - 1);
    }
}

proof fn lemma_store_terms_update(a: Seq<HskLevel>, b: Seq<HskLevel>, p: TermPos, v: Term)
    requires
        a.len() == b.len(),
        pos_valid(a, p),
        forall|i: int| 0 <= i < a.len() && i != p.level ==> b[i] == a[i],
        b[p.level as int].missions@.len() == a[p.level as int].missions@.len(),
        forall|j: int|
            0 <= j < a[p.level as int].missions@.len() && j != p.mission ==> b[
                p.level as int].missions@[j] == a[p.level as int].missions@[j],
        b[p.level as int].missions@[p.mission as int].terms@ == a[
            p.level as int].missions@[p.mission as int].terms@.update(p.term as int, v),
    ensures
        store_terms(b) == store_terms(a).update(flat_index(a, p), v),
        0 <= flat_index(a, p) < store_terms(a).len(),
    decreases a.len(),
{
    let fi = flat_index(a, p);
    let ams = a[p.level as int].missions@;
    let bms = b[p.level as int].missions@;
    assert(ams[p.mission as int].terms@.len() > 0);
    lemma_missions_terms_update(ams, bms, p.mission as int, p.term as int, v);
    let moff = missions_terms(ams.take(p.mission as int)).len() as int;
    if p.level as int == a.len() - 1 {
        assert(b.drop_last() =~= a.drop_last());
        assert(a.take(p.level as int) =~= a.drop_last());
        let x = store_terms(a.drop_last());
        let y = missions_terms(ams);
        assert(store_terms(b) == x + y.update(moff + p.term, v));
        assert(x + y.update(moff + p.term, v) =~= (x + y).update(fi, v));
    } else {
        let q = p;
        lemma_store_terms_update(a.drop_last(), b.drop_last(), q, v);
        assert(a.drop_last().take(p.level as int) =~= a.take(p.level as int));
        assert(a.drop_last()[p.level as int] == a[p.level as int]);
        assert(flat_index(a.drop_last(), p) == fi);
        assert(b.last() == a.last());
        lemma_store_terms_take_mono(a.drop_last(), p.level as int + 1, a.len() - 1);
        lemma_store_terms_take_step(a.drop_last(), p.level as int);
        assert(a.drop_last().take(p.level as int + 1).drop_last() =~= a.drop_last().take(
            p.level as int,
        ));
        assert(a.drop_last().take(a.len() - 1) =~= a.drop_last());
        let x = store_terms(a.drop_last());
        let y = missions_terms(a.last().missions@);
        assert(fi < x.len());
        assert(store_terms(b) == x.update(fi, v) + y);
        assert(x.update(fi, v) + y =~= (x + y).update(fi, v));
    }
}

proof fn lemma_saved_of_singleton(v: Term)
    ensures
        saved_of(seq![v]) == if v.saved {
            seq![v]
        } else {
            Seq::<Term>::empty()
        },
{
    lemma_saved_of_empty();
    assert(seq![v] =~= Seq::<Term>::empty().push(v));
    lemma_saved_of_push(Seq::empty(), v);
}

proof fn lemma_saved_of_split_at(x: Seq<Term>, i: int)
    requires
        0 <= i < x.len(),
    ensures
        saved_of(x) == saved_of(x.take(i)) + saved_of(seq![x[i]]) + saved_of(x.skip(i + 1)),
{
    assert(x =~= x.take(i) + seq![x[i]] + x.skip(i + 1));
    lemma_saved_of_add(x.take(i) + seq![x[i]], x.skip(i + 1));
    lemma_saved_of_add(x.take(i), seq![x[i]]);
}

/// Law: toggling the saved flag of one term edits the aggregate saved
/// view in exactly one place. The store's term traversal keeps every
/// other entry, and at the toggled term's traversal position the saved
/// view gains the term (when it was unsaved) or loses it (when it was
/// saved) — wherever in the hierarchy of levels and missions the term
/// lives.
pub proof fn lemma_toggle_updates_saved_view(a: Seq<HskLevel>, b: Seq<HskLevel>, p: TermPos)
    requires
        pos_valid(a, p),
        store_toggled_at(a, b, p),
    ensures
        0 <= flat_index(a, p) < store_terms(a).len(),
        store_terms(a)[flat_index(a, p)] == term_at(a, p),
        store_terms(b) == store_terms(a).update(flat_index(a, p), toggled(term_at(a, p))),
        saved_view(a) == saved_of(store_terms(a).take(flat_index(a, p))) + (if term_at(a, p).saved {
            seq![term_at(a, p)]
        } else {
            Seq::<Term>::empty()
        }) + saved_of(store_terms(a).skip(flat_index(a, p) + 1)),
        saved_view(b) == saved_of(store_terms(a).take(flat_index(a, p))) + (if term_at(a, p).saved {
            Seq::<Term>::empty()
        } else {
            seq![toggled(term_at(a, p))]
        }) + saved_of(store_terms(a).skip(flat_index(a, p) + 1)),
{
    let t = term_at(a, p);
    let v = toggled(t);
    let fi = flat_index(a, p);
    assert(term_at(b, p) == v);
    assert(b[p.level as int].missions@[p.mission as int].terms@ =~= a[
        p.level as int].missions@[p.mission as int].terms@.update(p.term as int, v));
    lemma_store_terms_update(a, b, p, v);
    assert(a[p.level as int].missions@[p.mission as int].terms@ =~= a[
        p.level as int].missions@[p.mission as int].terms@.update(p.term as int, t));
    lemma_store_terms_update(a, a, p, t);
    assert(store_terms(a)[fi] == t);
    lemma_saved_of_split_at(store_terms(a), fi);
    lemma_saved_of_split_at(store_terms(b), fi);
    assert(store_terms(b)[fi] == v);
    assert(store_terms(b).take(fi) =~= store_terms(a).take(fi));
    assert(store_terms(b).skip(fi + 1) =~= store_terms(a).skip(fi + 1));
    lemma_saved_of_singleton(t);
    lemma_saved_of_singleton(v);
}

/// Positions of every saved term of the store, in document traversal
/// order: the terms they denote are exactly the aggregate saved view.
pub fn saved_positions(levels: &Vec<HskLevel>) -> (r: Vec<TermPos>)
    ensures
        r@.len() == saved_view(levels@).len(),
        forall|d: int|
            0 <= d < r@.len() ==> {
                &&& pos_valid(levels@, #[trigger] r@[d])
                &&& term_at(levels@, r@[d]).saved
                &&& term_at(levels@, r@[d]) == saved_view(levels@)[d]
            },
        forall|d1: int, d2: int| 0 <= d1 < d2 < r@.len() ==> pos_lt(#[trigger] r@[d1], #[trigger] r@[d2]),
        forall|p: TermPos|
            pos_valid(levels@, p) && term_at(levels@, p).saved ==> r@.contains(p),
{
    let mut out: Vec<TermPos> = Vec::new();
    proof {
        lemma_saved_of_empty();
        assert(levels@.take(0) =~= Seq::<HskLevel>::empty());
        assert(store_terms(levels@.take(0)) == Seq::<Term>::empty());
    }
    let mut i: usize = 0;
    while i < levels.len()
        invariant
            i <= levels@.len(),
            out@.len() == saved_view(levels@.take(i as int)).len(),
            forall|d: int|
                0 <= d < out@.len() ==> {
                    &&& pos_valid(levels@, #[trigger] out@[d])
                    &&& term_at(levels@, out@[d]).saved
                    &&& term_at(levels@, out@[d]) == saved_view(levels@.take(i as int))[d]
                    &&& out@[d].level < i
                },
            forall|d1: int, d2: int|
                0 <= d1 < d2 < out@.len() ==> pos_lt(#[trigger] out@[d1], #[trigger] out@[d2]),
            forall|p: TermPos|
                pos_valid(levels@, p) && term_at(levels@, p).saved && p.level < i
                    ==> out@.contains(p),
        decreases levels@.len() - i,
    {
        let ghost pre0 = saved_view(levels@.take(i as int));
        let ms: &Vec<Mission> = &levels[i].missions;
        proof {
            lemma_saved_of_empty();
            assert(ms@.take(0) =~= Seq::<Mission>::empty());
            assert(missions_terms(ms@.take(0)) == Seq::<Term>::empty());
        }
        let mut j: usize = 0;
        while j < ms.len()
            invariant
                i < levels@.len(),
                ms@ == levels@[i as int].missions@,
                pre0 == saved_view(levels@.take(i as int)),
                j <= ms@.len(),
                out@.len() == pre0.len() + saved_of(missions_terms(ms@.take(j as int))).len(),
                forall|d: int|
                    0 <= d < pre0.len() ==> {
                        &&& pos_valid(levels@, #[trigger] out@[d])
                        &&& term_at(levels@, out@[d]).saved
                        &&& term_at(levels@, out@[d]) == pre0[d]
                        &&& out@[d].level < i
                    },
                forall|d: int|
                    pre0.len() <= d < out@.len() ==> {
                        &&& pos_valid(levels@, #[trigger] out@[d])
                        &&& term_at(levels@, out@[d]).saved
                        &&& term_at(levels@, out@[d]) == saved_of(
                            missions_terms(ms@.take(j as int)),
                        )[d - pre0.len()]
                        &&& out@[d].level == i
                        &&& out@[d].mission < j
                    },
                forall|d1: int, d2: int|
                    0 <= d1 < d2 < out@.len() ==> pos_lt(#[trigger] out@[d1], #[trigger] out@[d2]),
                forall|p: TermPos|
                    pos_valid(levels@, p) && term_at(levels@, p).saved && (p.level < i || (
                    p.level == i && p.mission < j)) ==> out@.contains(p),
            decreases ms@.len() - j,
        {
            let ghost pre1 = pre0 + saved_of(missions_terms(ms@.take(j as int)));
            let ts: &Vec<Term> = &ms[j].terms;
            proof {
                lemma_saved_of_empty();
                assert(ts@.take(0) =~= Seq::<Term>::empty());
            }
            let mut k: usize = 0;
            while k < ts.len()
                invariant
                    i < levels@.len(),
                    j < ms@.len(),
                    ms@ == levels@[i as int].missions@,
                    ts@ == ms@[j as int].terms@,
                    pre0 == saved_view(levels@.take(i as int)),
                    pre1 == pre0 + saved_of(missions_terms(ms@.take(j as int))),
                    k <= ts@.len(),
                    out@.len() == pre1.len() + saved_of(ts@.take(k as int)).len(),
                    forall|d: int|
                        0 <= d < pre0.len() ==> {
                            &&& pos_valid(levels@, #[trigger] out@[d])
                            &&& term_at(levels@, out@[d]).saved
                            &&& term_at(levels@, out@[d]) == pre0[d]
                            &&& out@[d].level < i
                        },
                    forall|d: int|
                        pre0.len() <= d < pre1.len() ==> {
                            &&& pos_valid(levels@, #[trigger] out@[d])
                            &&& term_at(levels@, out@[d]).saved
                            &&& term_at(levels@, out@[d]) == pre1[d]
                            &&& out@[d].level == i
                            &&& out@[d].mission < j
                        },
                    forall|d: int|
                        pre1.len() <= d < out@.len() ==> {
                            &&& pos_valid(levels@, #[trigger] out@[d])
                            &&& term_at(levels@, out@[d]).saved
                            &&& term_at(levels@, out@[d]) == saved_of(ts@.take(k as int))[d
                                - pre1.len()]
                            &&& out@[d].level == i
                            &&& out@[d].mission == j
                            &&& out@[d].term < k
                        },
                    forall|d1: int, d2: int|
                        0 <= d1 < d2 < out@.len() ==> pos_lt(
                            #[trigger] out@[d1],
                            #[trigger] out@[d2],
                        ),
                    forall|p: TermPos|
                        pos_valid(levels@, p) && term_at(levels@, p).saved && (p.level < i || (
                        p.level == i && p.mission < j) || (p.level == i && p.mission == j && p.term
                            < k)) ==> out@.contains(p),
                decreases ts@.len() - k,
            {
                proof {
                    assert(ts@.take(k as int + 1) =~= ts@.take(k as int).push(ts@[k as int]));
                    lemma_saved_of_push(ts@.take(k as int), ts@[k as int]);
                }
                if ts[k].saved {
                    let p = TermPos { level: i, mission: j, term: k };
                    let ghost prev = out@;
                    proof {
                        assert(term_at(levels@, p) == ts@[k as int]);
                    }
                    out.push(p);
                    proof {
                        assert(out@ == prev.push(p));
                        assert forall|q: TermPos| prev.contains(q) implies out@.contains(q) by {
                            let idx = choose|idx: int| 0 <= idx < prev.len() && prev[idx] == q;
                            assert(out@[idx] == q);
                        }
                        assert(out@[prev.len() as int] == p);
                        assert(out@.contains(p));
                    }
                }
                k += 1;
            }
            proof {
                assert(ts@.take(k as int) =~= ts@);
                lemma_missions_terms_take_step(ms@, j as int);
                lemma_saved_of_add(missions_terms(ms@.take(j as int)), ts@);
            }
            j += 1;
        }
        proof {
            assert(ms@.take(j as int) =~= ms@);
            lemma_store_terms_take_step(levels@, i as int);
            lemma_saved_of_add(store_terms(levels@.take(i as int)), missions_terms(ms@));
        }
        i += 1;
    }
    proof {
        assert(levels@.take(i as int) =~= levels@);
    }
    out
}

/// The deck of one mission: the positions of all its terms, in order.
pub fn mission_positions(levels: &Vec<HskLevel>, li: usize, mi: usize) -> (r: Vec<TermPos>)
    requires
        li < levels@.len(),
        mi < levels@[li as int].missions@.len(),
    ensures
        r@.len() == levels@[li as int].missions@[mi as int].terms@.len(),
        forall|d: int|
            0 <= d < r@.len() ==> #[trigger] r@[d] == (TermPos {
                level: li,
                mission: mi,
                term: d as usize,
            }) && pos_valid(levels@, r@[d]),
{
    let n = levels[li].missions[mi].terms.len();
    let mut r: Vec<TermPos> = Vec::new();
    let mut k: usize = 0;
    while k < n
        invariant
            li < levels@.len(),
            mi < levels@[li as int].missions@.len(),
            n == levels@[li as int].missions@[mi as int].terms@.len(),
            k <= n,
            r@.len() == k,
            forall|d: int|
                0 <= d < k ==> #[trigger] r@[d] == (TermPos {
                    level: li,
                    mission: mi,
                    term: d as usize,
                }) && pos_valid(levels@, r@[d]),
        decreases n - k,
    {
        r.push(TermPos { level: li, mission: mi, term: k });
        k += 1;
    }
    r
}

/// Clones of every saved term of the store, in document traversal order:
/// the cross-cutting "saved terms" aggregate.
pub fn get_saved_terms(levels: &Vec<HskLevel>) -> (r: Vec<Term>)
    ensures
        r@ == saved_view(levels@),
{
    let ps = saved_positions(levels);
    let mut out: Vec<Term> = Vec::new();
    let mut d: usize = 0;
    while d < ps.len()
        invariant
            d <= ps@.len(),
            ps@.len() == saved_view(levels@).len(),
            forall|e: int|
                0 <= e < ps@.len() ==> pos_valid(levels@, #[trigger] ps@[e]) && term_at(
                    levels@,
                    ps@[e],
                ) == saved_view(levels@)[e],
            out@.len() == d,
            forall|e: int| 0 <= e < d ==> out@[e] == saved_view(levels@)[e],
        decreases ps@.len() - d,
    {
        let t = term_ref(levels, ps[d]).clone();
        out.push(t);
        d += 1;
    }
    proof {
        assert(out@ =~= saved_view(levels@));
    }
    out
}

proof fn lemma_saved_of_subset(ts: Seq<Term>)
    ensures
        forall|d: int| 0 <= d < saved_of(ts).len() ==> ts.contains(#[trigger] saved_of(ts)[d]),
    decreases ts.len(),
{
    reveal(Seq::filter);
    if ts.len() > 0 {
        lemma_saved_of_subset(ts.drop_last());
        assert forall|d: int|
            0 <= d < saved_of(ts).len() implies ts.contains(saved_of(ts)[d]) by {
            let sub = saved_of(ts.drop_last());
            if d < sub.len() {
                assert(sub[d] == saved_of(ts)[d]);
                assert(ts.drop_last().contains(sub[d]));
                let idx = choose|idx: int|
                    0 <= idx < ts.drop_last().len() && ts.drop_last()[idx] == sub[d];
                assert(ts[idx] == saved_of(ts)[d]);
            } else {
                assert(saved_of(ts)[d] == ts.last());
                assert(ts[ts.len() - 1] == ts.last());
            }
        }
    }
}

/// Law: the saved-terms aggregate view holds exactly the saved terms of
/// the whole store, regardless of which level or mission they live in —
/// every entry is saved and drawn from the store's term traversal, every
/// saved term of the traversal appears in the view, and a store in which
/// no term is saved yields the empty view. The view's order is the
/// document traversal order with unsaved terms left out, which is how
/// `saved_view` is defined.
pub proof fn lemma_saved_view_exact(ls: Seq<HskLevel>)
    ensures
        forall|d: int|
            0 <= d < saved_view(ls).len() ==> (#[trigger] saved_view(ls)[d]).saved && store_terms(
                ls,
            ).contains(saved_view(ls)[d]),
        forall|i: int|
            0 <= i < store_terms(ls).len() && (#[trigger] store_terms(ls)[i]).saved ==> saved_view(
                ls,
            ).contains(store_terms(ls)[i]),
        (forall|i: int| 0 <= i < store_terms(ls).len() ==> !(#[trigger] store_terms(ls)[i]).saved)
            ==> saved_view(ls) == Seq::<Term>::empty(),
{
    broadcast use Seq::lemma_filter_pred, Seq::lemma_filter_contains;

    lemma_saved_of_subset(store_terms(ls));
    if forall|i: int| 0 <= i < store_terms(ls).len() ==> !(#[trigger] store_terms(ls)[i]).saved {
        if saved_view(ls).len() > 0 {
            assert(saved_view(ls)[0].saved);
            assert(store_terms(ls).contains(saved_view(ls)[0]));
            let idx = choose|idx: int|
                0 <= idx < store_terms(ls).len() && store_terms(ls)[idx] == saved_view(ls)[0];
            assert(!store_terms(ls)[idx].saved);
            assert(false);
        }
        assert(saved_view(ls) =~= Seq::<Term>::empty());
    }
}

} // verus!
