//! Menu navigation: the two-deep state stack, the option resolver, and
//! the interpretation of a selection back into store positions.

use vstd::prelude::*;

use crate::store::{store_wf, HskLevel};

verus! {

/// Where the menu loop stands: picking a level, or picking a mission
/// within the level with the given 1-based id.
#[derive(Clone, Copy, PartialEq, Eq, Structural, Debug)]
pub enum MenuState {
    HskLevel,
    Mission(usize),
}

/// One selectable entry: a level (by id), a mission (its id and its
/// level's id), the saved-terms aggregate, or the universal Back / Exit.
#[derive(Clone, Copy, PartialEq, Eq, Structural, Debug)]
pub enum MenuOption {
    Back,
    Exit,
    HskLevel(i8),
    Mission(i8, usize),
    SavedTerms,
}

/// What a selection asks for: descend into a level's missions, go back
/// up, leave the program, or start a practice session over a mission
/// (0-based level and mission indices) or over the saved terms.
#[derive(Clone, Copy, PartialEq, Eq, Structural, Debug)]
pub enum MenuAction {
    Descend(usize),
    Ascend,
    ExitProgram,
    StartMission(usize, usize),
    StartSavedTerms,
}

/// A selection that does not resolve: the chosen index is outside the
/// listed options, or an option's id leads outside the store.
#[derive(Clone, Copy, PartialEq, Eq, Structural, Debug)]
pub enum ParseFailure {
    ChoiceOutOfRange,
    PositionOutOfRange,
}

/// The navigation stack is well-formed: never empty, level selection at
/// the bottom, at most one mission selection above it.
pub open spec fn nav_wf(stack: Seq<MenuState>) -> bool {
    &&& 1 <= stack.len() <= 2
    &&& stack[0] == MenuState::HskLevel
    &&& forall|i: int| 1 <= i < stack.len() ==> stack[i] is Mission
}

/// The starting stack: level selection alone.
pub fn nav_init() -> (r: Vec<MenuState>)
    ensures
        r@ =~= seq![MenuState::HskLevel],
        nav_wf(r@),
{
    let mut v: Vec<MenuState> = Vec::new();
    v.push(MenuState::HskLevel);
    v
}

/// The state on top of the stack, which drives the option listing.
pub fn nav_top(stack: &Vec<MenuState>) -> (r: MenuState)
    requires
        nav_wf(stack@),
    ensures
        r == stack@.last(),
{
    stack[stack.len() - 1]
}

/// Descend from level selection into the missions of the level with the
/// given 1-based id.
pub fn nav_push_mission(stack: &mut Vec<MenuState>, level: usize)
    requires
        nav_wf(old(stack)@),
        old(stack)@.len() == 1,
    ensures
        final(stack)@ == old(stack)@.push(MenuState::Mission(level)),
        nav_wf(final(stack)@),
{
    stack.push(MenuState::Mission(level));
}

/// Go back one menu: pop the stack, except that the bottom (level
/// selection) is a floor and popping there is a no-op.
pub fn nav_pop(stack: &mut Vec<MenuState>)
    requires
        nav_wf(old(stack)@),
    ensures
        old(stack)@.len() > 1 ==> final(stack)@ == old(stack)@.drop_last(),
        old(stack)@.len() == 1 ==> final(stack)@ == old(stack)@,
        nav_wf(final(stack)@),
{
    if stack.len() > 1 {
        let _ = stack.pop();
    }
}

/// Law: selecting Back from mission selection always returns to level
/// selection and never below it; at level selection, Back leaves the
/// stack as it is, it does not crash or pop the floor.
pub proof fn lemma_back_floor(stack: Seq<MenuState>)
    requires
        nav_wf(stack),
    ensures
        stack.len() > 1 ==> nav_wf(stack.drop_last()) && stack.drop_last().last()
            == MenuState::HskLevel,
        stack.len() == 1 ==> stack.last() == MenuState::HskLevel,
{
}

/// The option list that belongs to a menu state: per level (or per
/// mission of the chosen level) one entry, then the aggregate or Back
/// entry, then the universal Exit, in that fixed order.
pub open spec fn options_match(state: MenuState, ls: Seq<HskLevel>, opts: Seq<MenuOption>) -> bool {
    match state {
        MenuState::HskLevel => {
            &&& opts.len() == ls.len() + 2
            &&& forall|i: int|
                0 <= i < ls.len() ==> opts[i] == MenuOption::HskLevel((#[trigger] ls[i]).level)
            &&& opts[ls.len() as int] == MenuOption::SavedTerms
            &&& opts[ls.len() as int + 1] == MenuOption::Exit
        },
        MenuState::Mission(l) => {
            let ms = ls[l - 1].missions@;
            &&& opts.len() == ms.len() + 2
            &&& forall|j: int|
                0 <= j < ms.len() ==> opts[j] == MenuOption::Mission((#[trigger] ms[j]).id, l)
            &&& opts[ms.len() as int] == MenuOption::Back
            &&& opts[ms.len() as int + 1] == MenuOption::Exit
        },
    }
}

/// Resolve the option list for the given menu state against the store.
pub fn menu_options(state: MenuState, levels: &Vec<HskLevel>) -> (r: Vec<MenuOption>)
    requires
        state matches MenuState::Mission(l) ==> 1 <= l <= levels@.len(),
    ensures
        options_match(state, levels@, r@),
{
    let mut r: Vec<MenuOption> = Vec::new();
    match state {
        MenuState::HskLevel => {
            let mut i: usize = 0;
            while i < levels.len()
                invariant
                    i <= levels@.len(),
                    r@.len() == i,
                    forall|k: int|
                        0 <= k < i ==> r@[k] == MenuOption::HskLevel((#[trigger] levels@[k]).level),
                decreases levels@.len() - i,
            {
                r.push(MenuOption::HskLevel(levels[i].level));
                i += 1;
            }
            r.push(MenuOption::SavedTerms);
            r.push(MenuOption::Exit);
        },
        MenuState::Mission(l) => {
            let ms: &Vec<crate::store::Mission> = &levels[l - 1].missions;
            let mut j: usize = 0;
            while j < ms.len()
                invariant
                    1 <= l <= levels@.len(),
                    ms@ == levels@[l as int - 1].missions@,
                    j <= ms@.len(),
                    r@.len() == j,
                    forall|k: int|
                        0 <= k < j ==> r@[k] == MenuOption::Mission((#[trigger] ms@[k]).id, l),
                decreases ms@.len() - j,
            {
                r.push(MenuOption::Mission(ms[j].id, l));
                j += 1;
            }
            r.push(MenuOption::Back);
            r.push(MenuOption::Exit);
        },
    }
    r
}

/// Interpret the selection of `options[choice]`: map ids back to store
/// positions through the id-equals-position invariant, or report the
/// selection as unresolvable.
pub fn select_action(options: &Vec<MenuOption>, choice: usize, levels: &Vec<HskLevel>) -> (r:
    Result<MenuAction, ParseFailure>)
    ensures
        choice >= options@.len() ==> r == Err::<MenuAction, ParseFailure>(
            ParseFailure::ChoiceOutOfRange,
        ),
        choice < options@.len() ==> match options@[choice as int] {
            MenuOption::Back => r == Ok::<MenuAction, ParseFailure>(MenuAction::Ascend),
            MenuOption::Exit => r == Ok::<MenuAction, ParseFailure>(MenuAction::ExitProgram),
            MenuOption::HskLevel(id) => {
                if 1 <= id && id as int <= levels@.len() {
                    r == Ok::<MenuAction, ParseFailure>(MenuAction::Descend(id as usize))
                } else {
                    r == Err::<MenuAction, ParseFailure>(ParseFailure::PositionOutOfRange)
                }
            },
            MenuOption::Mission(mid, lid) => {
                if 1 <= lid <= levels@.len() && 1 <= mid && mid as int <= levels@[lid as int
                    - 1].missions@.len() {
                    r == Ok::<MenuAction, ParseFailure>(
                        MenuAction::StartMission((lid - 1) as usize, (mid - 1) as usize),
                    )
                } else {
                    r == Err::<MenuAction, ParseFailure>(ParseFailure::PositionOutOfRange)
                }
            },
            MenuOption::SavedTerms => r == Ok::<MenuAction, ParseFailure>(
                MenuAction::StartSavedTerms,
            ),
        },
{
    if choice >= options.len() {
        return Err(ParseFailure::ChoiceOutOfRange);
    }
    match options[choice] {
        MenuOption::Back => Ok(MenuAction::Ascend),
        MenuOption::Exit => Ok(MenuAction::ExitProgram),
        MenuOption::HskLevel(id) => {
            if 1 <= id && (id as usize) <= levels.len() {
                Ok(MenuAction::Descend(id as usize))
            } else {
                Err(ParseFailure::PositionOutOfRange)
            }
        },
        MenuOption::Mission(mid, lid) => {
            if 1 <= lid && lid <= levels.len() && 1 <= mid && (mid as usize) <= levels[lid
                - 1].missions.len() {
                Ok(MenuAction::StartMission(lid - 1, (mid - 1) as usize))
            } else {
                Err(ParseFailure::PositionOutOfRange)
            }
        },
        MenuOption::SavedTerms => Ok(MenuAction::StartSavedTerms),
    }
}

/// Law: on a well-formed store, every option that the resolver lists
/// resolves — the id-equals-position invariant rules the position
/// failure out for listed levels and missions.
pub proof fn lemma_listed_options_resolve(
    state: MenuState,
    ls: Seq<HskLevel>,
    opts: Seq<MenuOption>,
    choice: int,
)
    requires
        store_wf(ls),
        options_match(state, ls, opts),
        state matches MenuState::Mission(l) ==> 1 <= l <= ls.len(),
        0 <= choice < opts.len(),
    ensures
        match opts[choice] {
            MenuOption::HskLevel(id) => 1 <= id as int <= ls.len(),
            MenuOption::Mission(mid, lid) => {
                &&& 1 <= lid <= ls.len()
                &&& 1 <= mid as int <= ls[lid as int - 1].missions@.len()
            },
            _ => true,
        },
{
    match state {
        MenuState::HskLevel => {
            if choice < ls.len() {
                assert(ls[choice].level as int == choice + 1);
            }
        },
        MenuState::Mission(l) => {
            let ms = ls[l - 1].missions@;
            if choice < ms.len() {
                assert(ls[l as int - 1].level as int == l as int);
                assert(crate::store::mission_ids_ok(ms));
                assert(ms[choice].id as int == choice + 1);
            }
        },
    }
}

} // verus!
