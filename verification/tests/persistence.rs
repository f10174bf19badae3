use hsk_practice::codec::store_to_json;
use hsk_practice::nav::{menu_options, select_action, MenuAction, MenuState};
use hsk_practice::session::{PracticeEvent, Session, StepAction};
use hsk_practice::store::{mission_positions, validate_store, HskLevel, Mission, Term};

fn term(hanzi: &str, pinyin: &str, saved: bool) -> Term {
    Term { hanzi: hanzi.to_string(), pinyin: pinyin.to_string(), saved }
}

/// Read a store back from the persisted document, as the boundary around
/// the library would.
fn store_from_value(v: &serde_json::Value) -> Vec<HskLevel> {
    v.as_array()
        .unwrap()
        .iter()
        .map(|l| HskLevel {
            level: l.get("HSK Level").unwrap().as_i64().unwrap() as i8,
            missions: l
                .get("Missions")
                .unwrap()
                .as_array()
                .unwrap()
                .iter()
                .map(|m| Mission {
                    id: m.get("Mission").unwrap().as_i64().unwrap() as i8,
                    terms: m
                        .get("Terms")
                        .unwrap()
                        .as_array()
                        .unwrap()
                        .iter()
                        .map(|t| Term {
                            hanzi: t.get("hanzi").unwrap().as_str().unwrap().to_string(),
                            pinyin: t.get("pinyin").unwrap().as_str().unwrap().to_string(),
                            saved: t.get("saved").map(|s| s.as_bool().unwrap()).unwrap_or(false),
                        })
                        .collect(),
                })
                .collect(),
        })
        .collect()
}

#[test]
fn emitted_document_is_exact() {
    let levels = vec![HskLevel {
        level: 1,
        missions: vec![Mission { id: 1, terms: vec![term("一", "yi1", true)] }],
    }];
    assert_eq!(
        store_to_json(&levels),
        "[{\"HSK Level\":1,\"Missions\":[{\"Mission\":1,\"Terms\":[{\"hanzi\":\"一\",\"pinyin\":\"yi1\",\"saved\":true}]}]}]"
    );
    let empty: Vec<HskLevel> = vec![];
    assert_eq!(store_to_json(&empty), "[]");
}

#[test]
fn saving_without_changes_round_trips() {
    let levels = vec![
        HskLevel {
            level: 1,
            missions: vec![
                Mission {
                    id: 1,
                    terms: vec![term("旅行", "lǚxíng", false), term("你好", "nǐ hǎo", true)],
                },
                Mission { id: 2, terms: vec![] },
            ],
        },
        HskLevel {
            level: 2,
            missions: vec![Mission { id: 1, terms: vec![term("谢谢", "xièxie", false)] }],
        },
    ];
    assert!(validate_store(&levels));
    let text = store_to_json(&levels);
    let value: serde_json::Value = serde_json::from_str(&text).unwrap();
    let reloaded = store_from_value(&value);
    assert_eq!(reloaded, levels);
    assert_eq!(store_to_json(&reloaded), text);
}

#[test]
fn escaping_survives_the_round_trip() {
    let levels = vec![HskLevel {
        level: 1,
        missions: vec![Mission {
            id: 1,
            terms: vec![
                term("a\"b", "back\\slash", false),
                term("line\nbreak", "tab\there", true),
                term("bell\u{7}", "return\rhome", false),
            ],
        }],
    }];
    let text = store_to_json(&levels);
    let value: serde_json::Value = serde_json::from_str(&text).unwrap();
    assert_eq!(store_from_value(&value), levels);
}

#[test]
fn missing_saved_field_defaults_to_false_at_the_boundary() {
    let value: serde_json::Value = serde_json::from_str(
        "[{\"HSK Level\":1,\"Missions\":[{\"Mission\":1,\"Terms\":[{\"hanzi\":\"一\",\"pinyin\":\"yi1\"}]}]}]",
    )
    .unwrap();
    let levels = store_from_value(&value);
    assert!(!levels[0].missions[0].terms[0].saved);
    assert!(validate_store(&levels));
}

#[test]
fn toggled_term_persists_and_reloads_saved() {
    let mut levels = vec![HskLevel {
        level: 1,
        missions: vec![Mission { id: 1, terms: vec![term("旅行", "lǜxíng", false)] }],
    }];
    assert!(validate_store(&levels));

    let opts = menu_options(MenuState::HskLevel, &levels);
    let action = select_action(&opts, 0, &levels).unwrap();
    assert_eq!(action, MenuAction::Descend(1));

    let opts = menu_options(MenuState::Mission(1), &levels);
    let action = select_action(&opts, 0, &levels).unwrap();
    let MenuAction::StartMission(li, mi) = action else {
        panic!("expected a mission start");
    };
    assert_eq!((li, mi), (0, 0));

    let deck = mission_positions(&levels, li, mi);
    let mut s = Session::start(deck).unwrap();
    assert_eq!(s.step(&mut levels, PracticeEvent::ToggleSave), StepAction::Continue);
    assert_eq!(s.step(&mut levels, PracticeEvent::Quit), StepAction::Quit);

    let text = store_to_json(&levels);
    let value: serde_json::Value = serde_json::from_str(&text).unwrap();
    let reloaded = store_from_value(&value);
    assert!(reloaded[0].missions[0].terms[0].saved);
    assert_eq!(reloaded[0].missions[0].terms[0].hanzi, "旅行");
}
