use hsk_practice::layout::{center_start, line_positions};
use hsk_practice::nav::{
    menu_options, nav_init, nav_pop, nav_push_mission, nav_top, select_action, MenuAction,
    MenuOption, MenuState, ParseFailure,
};
use hsk_practice::session::{
    advance_index, retreat_index, PracticeError, PracticeEvent, PracticeMode, Session, StepAction,
};
use hsk_practice::store::{
    get_saved_terms, mission_positions, saved_positions, toggle_at, validate_store, HskLevel,
    Mission, Term, TermPos,
};
use hsk_practice::text::{card_body, card_header, usize_dec_string};

fn term(hanzi: &str, pinyin: &str, saved: bool) -> Term {
    Term { hanzi: hanzi.to_string(), pinyin: pinyin.to_string(), saved }
}

fn sample_store() -> Vec<HskLevel> {
    vec![
        HskLevel {
            level: 1,
            missions: vec![
                Mission {
                    id: 1,
                    terms: vec![term("一", "yi1", false), term("二", "er4", false)],
                },
                Mission { id: 2, terms: vec![term("三", "san1", false)] },
            ],
        },
        HskLevel {
            level: 2,
            missions: vec![Mission {
                id: 1,
                terms: vec![term("四", "si4", false), term("五", "wu3", false)],
            }],
        },
    ]
}

#[test]
fn advance_wraps_to_zero() {
    assert_eq!(advance_index(2, 3), 0);
    assert_eq!(advance_index(0, 3), 1);
    assert_eq!(advance_index(0, 1), 0);
}

#[test]
fn retreat_wraps_to_last() {
    assert_eq!(retreat_index(0, 3), 2);
    assert_eq!(retreat_index(2, 3), 1);
    assert_eq!(retreat_index(0, 1), 0);
}

#[test]
fn advance_then_retreat_is_identity() {
    for len in 1..6usize {
        for i in 0..len {
            assert_eq!(retreat_index(advance_index(i, len), len), i);
            assert_eq!(advance_index(retreat_index(i, len), len), i);
        }
    }
}

#[test]
fn shuffle_is_a_permutation() {
    let levels = vec![HskLevel {
        level: 1,
        missions: vec![Mission {
            id: 1,
            terms: (0..7).map(|k| term(&format!("h{k}"), &format!("p{k}"), false)).collect(),
        }],
    }];
    let deck = mission_positions(&levels, 0, 0);
    let expected: Vec<(usize, usize, usize)> =
        (0..7).map(|k| (0usize, 0usize, k as usize)).collect();
    for _ in 0..20 {
        let s = Session::start(deck.clone()).unwrap();
        let mut got: Vec<(usize, usize, usize)> =
            s.deck.iter().map(|p| (p.level, p.mission, p.term)).collect();
        got.sort();
        assert_eq!(got, expected);
    }
}

#[test]
fn shuffle_moves_every_element_eventually() {
    let levels = vec![HskLevel {
        level: 1,
        missions: vec![Mission {
            id: 1,
            terms: vec![term("a", "a", false), term("b", "b", false), term("c", "c", false)],
        }],
    }];
    let deck = mission_positions(&levels, 0, 0);
    let mut seen_first = [false; 3];
    for _ in 0..300 {
        let s = Session::start(deck.clone()).unwrap();
        seen_first[s.deck[0].term] = true;
    }
    assert!(seen_first.iter().all(|&b| b), "each term should appear in front over many shuffles");
}

#[test]
fn toggle_save_is_an_involution() {
    let mut t = term("旅行", "lǚxíng", false);
    t.toggle_save();
    assert!(t.saved);
    t.toggle_save();
    assert!(!t.saved);
    assert_eq!(t, term("旅行", "lǚxíng", false));
}

#[test]
fn toggle_at_flips_only_that_term() {
    let mut levels = sample_store();
    let p = TermPos { level: 1, mission: 0, term: 1 };
    toggle_at(&mut levels, p);
    assert!(levels[1].missions[0].terms[1].saved);
    assert!(!levels[0].missions[0].terms[0].saved);
    assert!(!levels[1].missions[0].terms[0].saved);
    toggle_at(&mut levels, p);
    assert_eq!(levels, sample_store());
}

#[test]
fn saved_terms_aggregate_across_levels_in_order() {
    let mut levels = sample_store();
    toggle_at(&mut levels, TermPos { level: 0, mission: 0, term: 1 });
    toggle_at(&mut levels, TermPos { level: 0, mission: 1, term: 0 });
    toggle_at(&mut levels, TermPos { level: 1, mission: 0, term: 1 });
    let saved = get_saved_terms(&levels);
    let faces: Vec<&str> = saved.iter().map(|t| t.hanzi.as_str()).collect();
    assert_eq!(faces, vec!["二", "三", "五"]);
    let ps = saved_positions(&levels);
    assert_eq!(ps.len(), 3);
    assert_eq!((ps[0].level, ps[0].mission, ps[0].term), (0, 0, 1));
    assert_eq!((ps[1].level, ps[1].mission, ps[1].term), (0, 1, 0));
    assert_eq!((ps[2].level, ps[2].mission, ps[2].term), (1, 0, 1));
}

#[test]
fn no_saved_terms_yields_empty_aggregate() {
    let levels = sample_store();
    let saved = get_saved_terms(&levels);
    assert!(saved.is_empty());
    assert!(matches!(
        Session::start(saved_positions(&levels)),
        Err(PracticeError::NoTerms)
    ));
    assert!(matches!(Session::start_for_saved(&levels), Err(PracticeError::NoTerms)));
}

#[test]
fn empty_mission_yields_no_terms_outcome() {
    let levels = vec![HskLevel {
        level: 1,
        missions: vec![Mission { id: 1, terms: vec![] }],
    }];
    let deck = mission_positions(&levels, 0, 0);
    assert!(deck.is_empty());
    assert!(matches!(Session::start(deck), Err(PracticeError::NoTerms)));
    assert!(matches!(Session::start_for_mission(&levels, 0, 0), Err(PracticeError::NoTerms)));
}

#[test]
fn saved_terms_session_covers_all_levels() {
    let mut levels = sample_store();
    toggle_at(&mut levels, TermPos { level: 0, mission: 0, term: 0 });
    toggle_at(&mut levels, TermPos { level: 1, mission: 0, term: 1 });
    let s = Session::start_for_saved(&levels).unwrap();
    assert_eq!(s.deck.len(), 2);
    let mut got: Vec<(usize, usize, usize)> =
        s.deck.iter().map(|p| (p.level, p.mission, p.term)).collect();
    got.sort();
    assert_eq!(got, vec![(0, 0, 0), (1, 0, 1)]);
}

#[test]
fn back_returns_to_level_selection_and_floors_there() {
    let mut stack = nav_init();
    assert_eq!(nav_top(&stack), MenuState::HskLevel);
    nav_push_mission(&mut stack, 2);
    assert_eq!(nav_top(&stack), MenuState::Mission(2));
    nav_pop(&mut stack);
    assert_eq!(nav_top(&stack), MenuState::HskLevel);
    nav_pop(&mut stack);
    assert_eq!(stack.len(), 1);
    assert_eq!(nav_top(&stack), MenuState::HskLevel);
}

#[test]
fn level_selection_lists_levels_saved_terms_and_exit() {
    let levels = sample_store();
    let opts = menu_options(MenuState::HskLevel, &levels);
    assert_eq!(opts.len(), 4);
    assert_eq!(opts[0], MenuOption::HskLevel(1));
    assert_eq!(opts[1], MenuOption::HskLevel(2));
    assert_eq!(opts[2], MenuOption::SavedTerms);
    assert_eq!(opts[3], MenuOption::Exit);
}

#[test]
fn mission_selection_lists_missions_back_and_exit() {
    let levels = sample_store();
    let opts = menu_options(MenuState::Mission(1), &levels);
    assert_eq!(opts.len(), 4);
    assert_eq!(opts[0], MenuOption::Mission(1, 1));
    assert_eq!(opts[1], MenuOption::Mission(2, 1));
    assert_eq!(opts[2], MenuOption::Back);
    assert_eq!(opts[3], MenuOption::Exit);
}

#[test]
fn selections_resolve_to_actions() {
    let levels = sample_store();
    let opts = menu_options(MenuState::HskLevel, &levels);
    assert_eq!(select_action(&opts, 0, &levels), Ok(MenuAction::Descend(1)));
    assert_eq!(select_action(&opts, 2, &levels), Ok(MenuAction::StartSavedTerms));
    assert_eq!(select_action(&opts, 3, &levels), Ok(MenuAction::ExitProgram));
    assert_eq!(select_action(&opts, 9, &levels), Err(ParseFailure::ChoiceOutOfRange));
    let mopts = menu_options(MenuState::Mission(1), &levels);
    assert_eq!(select_action(&mopts, 1, &levels), Ok(MenuAction::StartMission(0, 1)));
    assert_eq!(select_action(&mopts, 2, &levels), Ok(MenuAction::Ascend));
}

#[test]
fn out_of_range_ids_are_parse_failures() {
    let levels = sample_store();
    let bogus = vec![MenuOption::HskLevel(9), MenuOption::Mission(7, 1), MenuOption::Mission(1, 9)];
    assert_eq!(select_action(&bogus, 0, &levels), Err(ParseFailure::PositionOutOfRange));
    assert_eq!(select_action(&bogus, 1, &levels), Err(ParseFailure::PositionOutOfRange));
    assert_eq!(select_action(&bogus, 2, &levels), Err(ParseFailure::PositionOutOfRange));
}

#[test]
fn validate_store_accepts_dense_one_based_ids() {
    assert!(validate_store(&sample_store()));
}

#[test]
fn validate_store_rejects_sparse_or_reordered_ids() {
    let mut levels = sample_store();
    levels[1].level = 3;
    assert!(!validate_store(&levels));
    let mut levels = sample_store();
    levels[0].missions[1].id = 5;
    assert!(!validate_store(&levels));
    let mut levels = sample_store();
    levels[0].level = -1;
    assert!(!validate_store(&levels));
}

#[test]
fn session_steps_follow_the_key_protocol() {
    let mut levels = sample_store();
    let deck = mission_positions(&levels, 0, 0);
    let mut s = Session::start(deck).unwrap();
    assert_eq!(s.index, 0);
    assert_eq!(s.mode, PracticeMode::Pinyin);

    assert_eq!(s.step(&mut levels, PracticeEvent::Advance), StepAction::Continue);
    assert_eq!(s.index, 1);
    assert_eq!(s.step(&mut levels, PracticeEvent::Advance), StepAction::Continue);
    assert_eq!(s.index, 0);
    assert_eq!(s.step(&mut levels, PracticeEvent::Retreat), StepAction::Continue);
    assert_eq!(s.index, 1);

    assert_eq!(s.step(&mut levels, PracticeEvent::ShowHanzi), StepAction::Continue);
    assert_eq!(s.mode, PracticeMode::Hanzi);
    let face = s.current_face(&levels).clone();
    assert_eq!(face, s.current_term(&levels).hanzi);
    assert_eq!(s.step(&mut levels, PracticeEvent::ShowPinyin), StepAction::Continue);
    assert_eq!(s.mode, PracticeMode::Pinyin);

    assert_eq!(s.step(&mut levels, PracticeEvent::ToggleSave), StepAction::Continue);
    let p = s.current_pos();
    assert!(levels[p.level].missions[p.mission].terms[p.term].saved);
    assert_eq!(s.step(&mut levels, PracticeEvent::ToggleSave), StepAction::Continue);
    assert!(!levels[p.level].missions[p.mission].terms[p.term].saved);

    assert_eq!(s.step(&mut levels, PracticeEvent::Lookup), StepAction::Lookup);
    assert_eq!(s.step(&mut levels, PracticeEvent::Other), StepAction::Continue);
    assert_eq!(s.index, 1);
    assert_eq!(s.step(&mut levels, PracticeEvent::Quit), StepAction::Quit);
}

#[test]
fn labels_match_the_display_texts() {
    let levels = sample_store();
    assert_eq!(levels[0].label(), "HSK Level 1");
    assert_eq!(levels[0].missions[1].label(), "Mission 2");
    assert_eq!(MenuState::HskLevel.label(), "HSK Level Selection");
    assert_eq!(MenuState::Mission(2).label(), "Missions for HSK Level: 2");
    assert_eq!(MenuOption::Back.label(), "<< Back");
    assert_eq!(MenuOption::Exit.label(), "Exit");
    assert_eq!(MenuOption::HskLevel(2).label(), "HSK Level 2");
    assert_eq!(MenuOption::Mission(3, 1).label(), "Mission 3");
    assert_eq!(MenuOption::SavedTerms.label(), "Saved Terms");
}

#[test]
fn decimal_rendering_is_exact() {
    assert_eq!(usize_dec_string(0), "0");
    assert_eq!(usize_dec_string(7), "7");
    assert_eq!(usize_dec_string(10), "10");
    assert_eq!(usize_dec_string(90210), "90210");
    assert_eq!(usize_dec_string(usize::MAX), format!("{}", usize::MAX));
}

#[test]
fn card_lines_are_exact() {
    assert_eq!(card_header("1", "2"), "HSK Level 1 - Mission 2");
    assert_eq!(card_header("Saved Terms", ""), "HSK Level Saved Terms - Mission ");
    assert_eq!(card_body(0, 1, "旅行", false), "Term (1/1) 旅行 ");
    assert_eq!(card_body(2, 10, "xiè", true), "Term (3/10) xiè  [Saved]");
}

#[test]
fn layout_centers_lines() {
    assert_eq!(center_start(80, 10), 35);
    assert_eq!(center_start(10, 80), 0);
    let lines = vec!["abc".to_string(), "de".to_string()];
    let pos = line_positions(80, 24, &lines);
    assert_eq!(pos, vec![(38, 11), (39, 12)]);
    let wide = vec!["x".repeat(100)];
    let pos = line_positions(80, 24, &wide);
    assert_eq!(pos, vec![(0, 11)]);
    let none: Vec<String> = vec![];
    assert_eq!(line_positions(80, 24, &none), vec![]);
}

#[test]
fn layout_counts_characters_not_bytes() {
    let lines = vec!["旅行".to_string()];
    let pos = line_positions(80, 3, &lines);
    assert_eq!(pos, vec![(39, 1)]);
}
