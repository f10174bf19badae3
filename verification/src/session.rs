//! The practice session: a shuffled deck of term positions, a cyclic
//! cursor, a display mode, and one transition per input event.

use vstd::prelude::*;

use crate::store::{
    lemma_toggle_preserves_pos_valid, mission_positions, pos_valid, saved_positions, saved_view,
    store_toggled_at, term_at, toggle_at, term_ref, HskLevel, Term, TermPos,
};

verus! {

/// Which face of a term the session shows.
#[derive(Clone, Copy, PartialEq, Eq, Structural, Debug)]
pub enum PracticeMode {
    Pinyin,
    Hanzi,
}

/// One input event of the practice loop, already decoded from the key
/// protocol: advance, retreat, quit, pick a face, toggle the review flag,
/// ask for the external lookup, or anything else (ignored).
#[derive(Clone, Copy, PartialEq, Eq, Structural, Debug)]
pub enum PracticeEvent {
    Advance,
    Retreat,
    Quit,
    ShowHanzi,
    ShowPinyin,
    ToggleSave,
    Lookup,
    Other,
}

/// What the caller must do after a transition: keep looping, run the
/// external lookup for the current term, or leave the session.
#[derive(Clone, Copy, PartialEq, Eq, Structural, Debug)]
pub enum StepAction {
    Continue,
    Lookup,
    Quit,
}

/// Starting a session on an empty deck is refused.
#[derive(Clone, Copy, PartialEq, Eq, Structural, Debug)]
pub enum PracticeError {
    NoTerms,
}

/// The cursor one step forward, wrapping from the last index to 0.
pub open spec fn advance_index_spec(i: int, len: int) -> int {
    if i + 1 == len {
        0
    } else {
        i + 1
    }
}

/// The cursor one step back, wrapping from 0 to the last index.
pub open spec fn retreat_index_spec(i: int, len: int) -> int {
    if i == 0 {
        len - 1
    } else {
        i - 1
    }
}

/// Law: both cursor moves are the modular formulas of the wraparound
/// discipline — advance is `(i + 1) mod len`, retreat is
/// `(i + len - 1) mod len`.
pub proof fn lemma_cursor_moves_are_modular(i: int, len: int)
    requires
        0 <= i < len,
    ensures
        advance_index_spec(i, len) == (i + 1) % len,
        retreat_index_spec(i, len) == (i + len - 1) % len,
{
    if i + 1 == len {
        vstd::arithmetic::div_mod::lemma_mod_self_0(len);
    } else {
        vstd::arithmetic::div_mod::lemma_small_mod((i + 1) as nat, len as nat);
    }
    if i == 0 {
        vstd::arithmetic::div_mod::lemma_small_mod((len - 1) as nat, len as nat);
    } else {
        vstd::arithmetic::div_mod::lemma_mod_multiples_vanish(1, i - 1, len);
        vstd::arithmetic::div_mod::lemma_small_mod((i - 1) as nat, len as nat);
    }
}

/// Law: on a non-empty deck, advancing then retreating (and retreating
/// then advancing) from any index returns to that index.
pub proof fn lemma_advance_retreat_inverse(i: int, len: int)
    requires
        0 <= i < len,
    ensures
        retreat_index_spec(advance_index_spec(i, len), len) == i,
        advance_index_spec(retreat_index_spec(i, len), len) == i,
{
}

/// Law: advancing from the last index yields index 0; retreating from
/// index 0 yields the last index.
pub proof fn lemma_cursor_wraparound(len: int)
    requires
        len > 0,
    ensures
        advance_index_spec(len - 1, len) == 0,
        retreat_index_spec(0, len) == len - 1,
{
}

/// The cursor one step forward, executable.
pub fn advance_index(i: usize, len: usize) -> (r: usize)
    requires
        len > 0,
        i < len,
    ensures
        r as int == advance_index_spec(i as int, len as int),
        r < len,
{
    if i + 1 == len {
        0
    } else {
        i + 1
    }
}

/// The cursor one step back, executable.
pub fn retreat_index(i: usize, len: usize) -> (r: usize)
    requires
        len > 0,
        i < len,
    ensures
        r as int == retreat_index_spec(i as int, len as int),
        r < len,
{
    if i == 0 {
        len - 1
    } else {
        i - 1
    }
}

/// Relies on rand's `SliceRandom::shuffle` (with `rand::rng()` as the
/// generator): an in-place permutation of the slice, picked uniformly
/// from all permutations; no element is added, dropped or altered.
#[verifier::external_body]
fn shuffle_positions(deck: &mut Vec<TermPos>)
    ensures
        final(deck)@.to_multiset() == old(deck)@.to_multiset(),
        final(deck)@.len() == old(deck)@.len(),
{
    rand::seq::SliceRandom::shuffle(deck.as_mut_slice(), &mut rand::rng());
}

/// Law: a permutation (equal multisets) holds exactly the same elements;
/// in particular a shuffled deck holds exactly the entries of the deck it
/// came from.
pub proof fn lemma_permutation_membership(a: Seq<TermPos>, b: Seq<TermPos>)
    requires
        a.to_multiset() == b.to_multiset(),
    ensures
        forall|d: int| 0 <= d < b.len() ==> a.contains(#[trigger] b[d]),
        forall|d: int| 0 <= d < a.len() ==> b.contains(#[trigger] a[d]),
{
    a.to_multiset_ensures();
    b.to_multiset_ensures();
    assert forall|d: int| 0 <= d < b.len() implies a.contains(b[d]) by {
        assert(b.contains(b[d]));
        assert(b.to_multiset().count(b[d]) > 0);
    }
    assert forall|d: int| 0 <= d < a.len() implies b.contains(a[d]) by {
        assert(a.contains(a[d]));
        assert(a.to_multiset().count(a[d]) > 0);
    }
}

/// One practice run: a shuffled deck of positions into the store, the
/// cyclic cursor, and the face being shown.
pub struct Session {
    pub deck: Vec<TermPos>,
    pub index: usize,
    pub mode: PracticeMode,
}

/// The session is usable against the store: the deck is non-empty, the
/// cursor is in range, and every deck entry denotes a term of the store.
pub open spec fn session_wf(s: Session, ls: Seq<HskLevel>) -> bool {
    &&& s.deck@.len() > 0
    &&& s.index < s.deck@.len()
    &&& forall|d: int| 0 <= d < s.deck@.len() ==> pos_valid(ls, #[trigger] s.deck@[d])
}

impl Session {
    /// Begin a practice session over the given deck: refuse an empty
    /// deck, else shuffle once and set the cursor to 0 and the face to
    /// pinyin.
    pub fn start(deck: Vec<TermPos>) -> (r: Result<Session, PracticeError>)
        ensures
            r is Err <==> deck@.len() == 0,
            r matches Ok(s) ==> {
                &&& s.deck@.to_multiset() == deck@.to_multiset()
                &&& s.deck@.len() == deck@.len()
                &&& s.index == 0
                &&& s.mode == PracticeMode::Pinyin
            },
    {
        if deck.len() == 0 {
            return Err(PracticeError::NoTerms);
        }
        let mut deck = deck;
        shuffle_positions(&mut deck);
        Ok(Session { deck, index: 0, mode: PracticeMode::Pinyin })
    }

    /// Begin a practice session over all terms of one mission. Refused
    /// exactly when the mission has no terms.
    pub fn start_for_mission(levels: &Vec<HskLevel>, li: usize, mi: usize) -> (r: Result<
        Session,
        PracticeError,
    >)
        requires
            li < levels@.len(),
            mi < levels@[li as int].missions@.len(),
        ensures
            r is Err <==> levels@[li as int].missions@[mi as int].terms@.len() == 0,
            r matches Ok(s) ==> {
                &&& session_wf(s, levels@)
                &&& s.deck@.len() == levels@[li as int].missions@[mi as int].terms@.len()
                &&& s.index == 0
                &&& s.mode == PracticeMode::Pinyin
            },
    {
        let deck = mission_positions(levels, li, mi);
        let ghost deck0 = deck@;
        match Session::start(deck) {
            Err(e) => Err(e),
            Ok(s) => {
                proof {
                    lemma_permutation_membership(deck0, s.deck@);
                    assert forall|d: int|
                        0 <= d < s.deck@.len() implies pos_valid(
                        levels@,
                        #[trigger] s.deck@[d],
                    ) by {
                        let idx = choose|idx: int|
                            0 <= idx < deck0.len() && deck0[idx] == s.deck@[d];
                        assert(pos_valid(levels@, deck0[idx]));
                    }
                }
                Ok(s)
            },
        }
    }

    /// Begin a practice session over the cross-cutting saved terms.
    /// Refused exactly when no term anywhere is saved.
    pub fn start_for_saved(levels: &Vec<HskLevel>) -> (r: Result<Session, PracticeError>)
        ensures
            r is Err <==> saved_view(levels@).len() == 0,
            r matches Ok(s) ==> {
                &&& session_wf(s, levels@)
                &&& s.deck@.len() == saved_view(levels@).len()
                &&& s.index == 0
                &&& s.mode == PracticeMode::Pinyin
            },
    {
        let deck = saved_positions(levels);
        let ghost deck0 = deck@;
        match Session::start(deck) {
            Err(e) => Err(e),
            Ok(s) => {
                proof {
                    lemma_permutation_membership(deck0, s.deck@);
                    assert forall|d: int|
                        0 <= d < s.deck@.len() implies pos_valid(
                        levels@,
                        #[trigger] s.deck@[d],
                    ) by {
                        let idx = choose|idx: int|
                            0 <= idx < deck0.len() && deck0[idx] == s.deck@[d];
                        assert(pos_valid(levels@, deck0[idx]));
                    }
                }
                Ok(s)
            },
        }
    }

    /// The position under the cursor.
    pub fn current_pos(&self) -> (p: TermPos)
        requires
            self.index < self.deck@.len(),
        ensures
            p == self.deck@[self.index as int],
    {
        self.deck[self.index]
    }

    /// Borrow the term under the cursor.
    pub fn current_term<'a>(&self, levels: &'a Vec<HskLevel>) -> (r: &'a Term)
        requires
            session_wf(*self, levels@),
        ensures
            *r == term_at(levels@, self.deck@[self.index as int]),
    {
        term_ref(levels, self.deck[self.index])
    }

    /// Borrow the face of the term under the cursor that the current
    /// mode selects.
    pub fn current_face<'a>(&self, levels: &'a Vec<HskLevel>) -> (r: &'a String)
        requires
            session_wf(*self, levels@),
        ensures
            *r == if self.mode == PracticeMode::Pinyin {
                term_at(levels@, self.deck@[self.index as int]).pinyin
            } else {
                term_at(levels@, self.deck@[self.index as int]).hanzi
            },
    {
        let t = term_ref(levels, self.deck[self.index]);
        match self.mode {
            PracticeMode::Pinyin => &t.pinyin,
            PracticeMode::Hanzi => &t.hanzi,
        }
    }

    /// Apply one input event: move the cursor cyclically, switch the
    /// face, toggle the current term's saved flag, ask for a lookup, quit,
    /// or ignore the event. The deck itself never changes.
    pub fn step(&mut self, levels: &mut Vec<HskLevel>, ev: PracticeEvent) -> (a: StepAction)
        requires
            session_wf(*old(self), old(levels)@),
        ensures
            session_wf(*final(self), final(levels)@),
            final(self).deck == old(self).deck,
            match ev {
                PracticeEvent::Advance => {
                    &&& final(levels)@ == old(levels)@
                    &&& final(self).mode == old(self).mode
                    &&& final(self).index as int == advance_index_spec(
                        old(self).index as int,
                        old(self).deck@.len() as int,
                    )
                    &&& a == StepAction::Continue
                },
                PracticeEvent::Retreat => {
                    &&& final(levels)@ == old(levels)@
                    &&& final(self).mode == old(self).mode
                    &&& final(self).index as int == retreat_index_spec(
                        old(self).index as int,
                        old(self).deck@.len() as int,
                    )
                    &&& a == StepAction::Continue
                },
                PracticeEvent::Quit => {
                    &&& final(levels)@ == old(levels)@
                    &&& *final(self) == *old(self)
                    &&& a == StepAction::Quit
                },
                PracticeEvent::ShowHanzi => {
                    &&& final(levels)@ == old(levels)@
                    &&& final(self).index == old(self).index
                    &&& final(self).mode == PracticeMode::Hanzi
                    &&& a == StepAction::Continue
                },
                PracticeEvent::ShowPinyin => {
                    &&& final(levels)@ == old(levels)@
                    &&& final(self).index == old(self).index
                    &&& final(self).mode == PracticeMode::Pinyin
                    &&& a == StepAction::Continue
                },
                PracticeEvent::ToggleSave => {
                    &&& store_toggled_at(
                        old(levels)@,
                        final(levels)@,
                        old(self).deck@[old(self).index as int],
                    )
                    &&& *final(self) == *old(self)
                    &&& a == StepAction::Continue
                },
                PracticeEvent::Lookup => {
                    &&& final(levels)@ == old(levels)@
                    &&& *final(self) == *old(self)
                    &&& a == StepAction::Lookup
                },
                PracticeEvent::Other => {
                    &&& final(levels)@ == old(levels)@
                    &&& *final(self) == *old(self)
                    &&& a == StepAction::Continue
                },
            },
    {
        match ev {
            PracticeEvent::Advance => {
                self.index = advance_index(self.index, self.deck.len());
                StepAction::Continue
            },
            PracticeEvent::Retreat => {
                self.index = retreat_index(self.index, self.deck.len());
                StepAction::Continue
            },
            PracticeEvent::Quit => StepAction::Quit,
            PracticeEvent::ShowHanzi => {
                self.mode = PracticeMode::Hanzi;
                StepAction::Continue
            },
            PracticeEvent::ShowPinyin => {
                self.mode = PracticeMode::Pinyin;
                StepAction::Continue
            },
            PracticeEvent::ToggleSave => {
                let p = self.deck[self.index];
                toggle_at(levels, p);
                proof {
                    assert forall|d: int|
                        0 <= d < self.deck@.len() implies pos_valid(
                        levels@,
                        #[trigger] self.deck@[d],
                    ) by {
                        lemma_toggle_preserves_pos_valid(
                            old(levels)@,
                            levels@,
                            p,
                            self.deck@[d],
                        );
                    }
                }
                StepAction::Continue
            },
            PracticeEvent::Lookup => StepAction::Lookup,
            PracticeEvent::Other => StepAction::Continue,
        }
    }
}

} // verus!
