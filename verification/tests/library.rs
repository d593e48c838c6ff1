use std::str::FromStr;

use fight_arena::combat::{
    fair_play_over, foes_to_spawn, is_threat, roll_initiative, roll_one, Accuracy, Attack,
    AttackSpe, Critical, Defense, DefenseSpe, GroupSize, Initiative, Team, HP, MANA,
};
use fight_arena::constants::{KARMA_MAX, KARMA_MIN, SCROLL_ANIMATION_FRAMES_NUMBER, TEAM_MC, TEAM_OLF};
use fight_arena::dialog::{
    DialogCondition, DialogNode, DialogType, GameEvent, ThrowableEvent,
};
use fight_arena::dialog_file::{init_tree_file, try_init_tree_file};
use fight_arena::dialog_flat::{init_tree_flat, is_special_char_flat, try_init_tree_flat};
use fight_arena::dialog_loading::{change_state, load_dialog};
use fight_arena::dialog_flow::{
    choice_button_visible, dive_decision, drop_first_text, next_letter, panel_content,
    scroll_frame_step, shown_choices, DiveAction,
};
use fight_arena::dialog_states::{
    continue_monolog, npc_next_state, offered_choices, possible_exits, speedrun_still_on,
    state_is_available, throw_events, ButtonChoice, StateChoice, StateCondition, StateContent,
    StateNode, WorldEvent,
};
use fight_arena::movement::movement_axes;
use fight_arena::text::{
    chars_to_string, parse_i32_chars, push_i32, replace_str, str_to_chars, trim_end, trim_start,
};

fn chars(s: &str) -> Vec<char> {
    s.chars().collect()
}

#[test]
fn replace_is_left_to_right_and_non_overlapping() {
    let r = replace_str(&chars("aaaa\n\n\nb\n\n\n\n"), "\n\n\n", "\n\n");
    assert_eq!(r, chars("aaaa\n\nb\n\n\n"));
    let r = replace_str(&chars("admin"), "min", "-10");
    assert_eq!(r, chars("ad-10"));
}

#[test]
fn decimal_rendering_of_i32() {
    for v in [0, 7, -7, 42, 100, -100, i32::MAX, i32::MIN] {
        let mut out = Vec::new();
        push_i32(&mut out, v);
        assert_eq!(out, chars(&v.to_string()));
    }
}

#[test]
fn parsing_i32_like_std() {
    for s in ["0", "-10", "+5", "2147483647", "-2147483648", "2147483648", "", "-", "+", "1a", "MAX", " 1"] {
        assert_eq!(parse_i32_chars(&chars(s)), s.parse::<i32>().ok(), "input {:?}", s);
    }
}

#[test]
fn trimming_spaces() {
    assert_eq!(trim_start(&chars("   a b ")), chars("a b "));
    assert_eq!(trim_end(&chars("   a b   ")), chars("   a b"));
    assert_eq!(chars_to_string(&str_to_chars("Géant")), "Géant".to_string());
}

#[test]
fn karma_condition_rules() {
    let none = DialogCondition::new();
    assert!(none.is_verified(-1000));
    let range = DialogCondition { karma_threshold: Some((-10, 0)), event: None };
    assert!(range.is_verified(-10));
    assert!(range.is_verified(0));
    assert!(!range.is_verified(1));
    assert!(!range.is_verified(-11));
    let open = DialogCondition { karma_threshold: Some((0, 0)), event: None };
    assert!(open.is_verified(55));
    assert!(open.is_verified(-55));
}

#[test]
fn element_kinds() {
    assert!(DialogType::new_text().is_text());
    assert!(DialogType::new_choice().is_choice());
    assert!(DialogType::new_text()._eq(DialogType::Text("x".to_string())));
    assert!(!DialogType::new_text()._eq(DialogType::new_choice()));
    let mut n = DialogNode::new();
    assert!(!n.is_text() && !n.is_choice() && n.is_end_node());
    n.dialog_type.push(DialogType::new_choice());
    assert!(n.is_choice() && !n.is_text());
    n.add_child(DialogNode::new());
    assert!(!n.is_end_node());
}

#[test]
fn event_names_round_trip() {
    for e in [
        GameEvent::BeatTheGame,
        GameEvent::FirstKill,
        GameEvent::AreaCleared,
        GameEvent::HasCharisma,
        GameEvent::HasFriend,
    ] {
        assert_eq!(GameEvent::from_str(&e.to_string()), Ok(e));
    }
    for e in [ThrowableEvent::FightEvent, ThrowableEvent::HasFriend] {
        assert_eq!(ThrowableEvent::from_str(&e.to_string()), Ok(e));
    }
    for e in [WorldEvent::FrogLove, WorldEvent::FrogHate, WorldEvent::FrogTalk, WorldEvent::SpeedrunEnd] {
        assert_eq!(WorldEvent::from_str(&e.to_string()), Ok(e));
    }
    assert_eq!(GameEvent::from_str("Nope"), Err(()));
    assert_eq!(ThrowableEvent::from_str(""), Err(()));
    assert_eq!(WorldEvent::from_str("frogtalk"), Err(()));
}

#[test]
fn print_file_writes_conditions() {
    let mut node = DialogNode::new();
    node.character = Some((0, "Morgan".to_string()));
    node.dialog_type = vec![
        DialogType::Choice {
            text: "Hi".to_string(),
            condition: Some(DialogCondition {
                karma_threshold: Some((-10, 0)),
                event: Some(vec![GameEvent::HasFriend, GameEvent::FirstKill]),
            }),
        },
        DialogType::Choice { text: "Bye".to_string(), condition: None },
    ];
    assert_eq!(
        node.print_file(),
        "# Morgan\n\n- Hi | karma: -10,0; event: HasFriend,FirstKill;\n- Bye | None\n".to_string()
    );
    let mut narrator = DialogNode::new();
    narrator.dialog_type = vec![DialogType::Text("Once".to_string())];
    assert_eq!(narrator.print_file(), "# Narator\n\n- Once\n".to_string());
}

#[test]
fn file_round_trip_with_conditions() {
    let s = "# Morgan\n\n- Hi | karma: -10,0; event: HasFriend,FirstKill;\n- Bye | None\n\n## Hugo\n\n- Yo\n\n## Hugo\n\n- Ciao\n";
    let t = init_tree_file(s.to_string());
    assert_eq!(t.print_file(), s.to_string());
    assert_eq!(
        t.dialog_type[0],
        DialogType::Choice {
            text: "Hi".to_string(),
            condition: Some(DialogCondition {
                karma_threshold: Some((-10, 0)),
                event: Some(vec![GameEvent::HasFriend, GameEvent::FirstKill]),
            }),
        }
    );
}

fn speaker_node(name: &str, dialog_type: Vec<DialogType>) -> DialogNode {
    let mut n = DialogNode::new();
    n.character = Some((0, name.to_string()));
    n.dialog_type = dialog_type;
    n
}

#[test]
fn print_then_read_gives_the_tree_back() {
    let mut root = speaker_node(
        "Olf",
        vec![
            DialogType::Text("Hello".to_string()),
            DialogType::Choice { text: "Fight".to_string(), condition: None },
            DialogType::Choice {
                text: "Flee".to_string(),
                condition: Some(DialogCondition {
                    karma_threshold: None,
                    event: Some(vec![GameEvent::AreaCleared, GameEvent::BeatTheGame]),
                }),
            },
            DialogType::Choice {
                text: "Talk".to_string(),
                condition: Some(DialogCondition { karma_threshold: Some((-5, 70)), event: None }),
            },
        ],
    );
    let mut child = speaker_node("Morgan", vec![DialogType::Text("Ouch".to_string())]);
    child.add_child(speaker_node("Olf", vec![DialogType::Text("Ha".to_string())]));
    root.add_child(child);
    root.add_child(speaker_node("Morgan", vec![DialogType::Text("Bye".to_string())]));
    let written = root.print_file();
    assert_eq!(
        written,
        "# Olf\n\n- Hello\n- Fight | None\n- Flee | event: AreaCleared,BeatTheGame;\n- Talk | karma: -5,70;\n\n## Morgan\n\n- Ouch\n\n### Olf\n\n- Ha\n\n## Morgan\n\n- Bye\n".to_string()
    );
    assert_eq!(init_tree_file(written), root);
}

#[test]
fn print_then_read_after_a_none_condition() {
    // a `None` condition leaves nothing behind for the next line
    let t = speaker_node(
        "A",
        vec![
            DialogType::Choice { text: "a".to_string(), condition: None },
            DialogType::Choice {
                text: "b".to_string(),
                condition: Some(DialogCondition {
                    karma_threshold: Some((1, 2)),
                    event: Some(vec![GameEvent::HasFriend]),
                }),
            },
        ],
    );
    assert_eq!(init_tree_file(t.print_file()), t);
    let c = speaker_node(
        "A",
        vec![
            DialogType::Text("Well, well".to_string()),
            DialogType::Choice { text: "yes; no".to_string(), condition: None },
        ],
    );
    assert_eq!(init_tree_file(c.print_file()), c);
    let d = speaker_node(
        "A",
        vec![
            DialogType::Choice { text: "a".to_string(), condition: None },
            DialogType::Choice { text: "b, c".to_string(), condition: None },
        ],
    );
    assert_eq!(init_tree_file(d.print_file()), d);
    let s = "# M\n\n- Hi | None\n- Yes, sure | None\n";
    assert_eq!(
        init_tree_file(s.to_string()).dialog_type,
        vec![
            DialogType::Choice { text: "Hi".to_string(), condition: None },
            DialogType::Choice { text: "Yes, sure".to_string(), condition: None },
        ]
    );
    // a speaker's id is not written
    let mut u = speaker_node("A", vec![DialogType::Text("x".to_string())]);
    u.character = Some((7, "A".to_string()));
    let back = init_tree_file(u.print_file());
    assert_eq!(back.character, Some((0, "A".to_string())));
}

#[test]
fn print_file_writes_thrown_events() {
    let mut n = speaker_node("Hugo", vec![DialogType::Text(":)".to_string())]);
    n.trigger_event = vec![ThrowableEvent::HasFriend];
    assert_eq!(n.print_file(), "# Hugo\n\n- :)\n-> HasFriend\n".to_string());
    assert_eq!(init_tree_file(n.print_file()).trigger_event, vec![ThrowableEvent::HasFriend]);
    let mut root = speaker_node("Morgan", vec![DialogType::Text("Go".to_string())]);
    n.trigger_event = vec![ThrowableEvent::FightEvent, ThrowableEvent::HasFriend];
    root.add_child(n);
    let written = root.print_file();
    assert_eq!(
        written,
        "# Morgan\n\n- Go\n\n## Hugo\n\n- :)\n-> FightEvent,HasFriend\n".to_string()
    );
    assert_eq!(init_tree_file(written), root);
}

#[test]
fn print_file_writes_names_as_they_are() {
    let n = speaker_node(
        "Jasmine",
        vec![DialogType::Choice {
            text: "Go max".to_string(),
            condition: Some(DialogCondition { karma_threshold: Some((-10, 20)), event: None }),
        }],
    );
    assert_eq!(n.print_file(), "# Jasmine\n\n- Go max | karma: -10,20;\n".to_string());
    assert_eq!(init_tree_file(n.print_file()), n);
}

#[test]
fn file_reading_orders_karma_and_reads_max_min() {
    let t = init_tree_file("# A\n\n- x | karma: 50,-50;\n- y | k: max,min;\n".to_string());
    assert_eq!(
        t.dialog_type,
        vec![
            DialogType::Choice {
                text: "x".to_string(),
                condition: Some(DialogCondition { karma_threshold: Some((-50, 50)), event: None }),
            },
            DialogType::Choice {
                text: "y".to_string(),
                condition: Some(DialogCondition {
                    karma_threshold: Some((KARMA_MIN, KARMA_MAX)),
                    event: None,
                }),
            },
        ]
    );
}

#[test]
fn file_reading_errors() {
    assert!(try_init_tree_file("# A\n\n- x | k: abc;\n".to_string()).is_none());
    assert!(try_init_tree_file("# A\n\n- x | e: Nothing;\n".to_string()).is_none());
    assert!(try_init_tree_file("# A\n\n- x\n\n-> Boom\n".to_string()).is_none());
    assert!(try_init_tree_file("## A\n\n- a\n\n# B\n\n- b\n".to_string()).is_none());
    assert!(try_init_tree_file("# A\n\n- a\n".to_string()).is_some());
}

#[test]
fn flat_reading_errors_and_specials() {
    assert!(try_init_tree_flat("]>".to_string()).is_none());
    let t = try_init_tree_flat("[a/>b]".to_string()).unwrap();
    assert_eq!(t.dialog_type, vec![DialogType::Text("a>b".to_string())]);
    // an escaped comma still ends a choice once some text is pending
    let t = try_init_tree_flat("[a/,b]".to_string()).unwrap();
    assert_eq!(
        t.dialog_type,
        vec![
            DialogType::Choice { text: "a".to_string(), condition: None },
            DialogType::Choice { text: "b".to_string(), condition: None },
        ]
    );
    let t = init_tree_flat("[x];[y]".to_string());
    assert_eq!(t.dialog_type, vec![DialogType::Text("x".to_string())]);
    assert!(t.children.is_empty());
    assert!(is_special_char_flat('['));
    assert!(!is_special_char_flat('a'));
}

#[test]
fn flat_print_ignores_speakers() {
    let mut a = DialogNode::new();
    a.dialog_type = vec![DialogType::Text("Hello".to_string())];
    a.character = Some((3, "X".to_string()));
    assert_eq!(a.print_flat(), "[Hello]".to_string());
    let empty = DialogNode::new();
    assert_eq!(empty.print_flat(), "[]".to_string());
}

#[test]
fn combat_defaults() {
    let hp = HP::default();
    assert_eq!((hp.current_hp, hp.max_hp), (50, 50));
    let mana = MANA::default();
    assert_eq!((mana.current_mana, mana.max_mana), (50, 50));
    assert_eq!(Attack::default().attack, 10);
    assert_eq!(AttackSpe::default().attack_spe, 0);
    assert_eq!(Defense::default().defense, 10);
    assert_eq!(DefenseSpe::default().defense_spe, 0);
    assert_eq!(Initiative::default().initiative, 20);
    assert_eq!(Accuracy::default().accuracy, 95);
    assert_eq!(Critical::default().critical, 1);
}

#[test]
fn initiative_rolls() {
    assert_eq!(roll_one(100), 100);
    for _ in 0..50 {
        let r = roll_one(5);
        assert!(0 <= r && r < 25);
        let r = roll_one(90);
        assert!(70 <= r && r < 100);
        let r = roll_one(50);
        assert!(30 <= r && r < 70);
    }
    let player = Initiative { initiative: 40 };
    let npcs = vec![Initiative { initiative: 100 }, Initiative { initiative: 10 }];
    let v = roll_initiative(&player, &npcs);
    assert_eq!(v.len(), 3);
    assert!(v.windows(2).all(|w| w[0].0 <= w[1].0));
    assert_eq!(v[2], (100, 100));
    let mut inits: Vec<i32> = v.iter().map(|p| p.1).collect();
    inits.sort();
    assert_eq!(inits, vec![10, 40, 100]);
}

#[test]
fn initiative_ties_put_the_higher_initiative_first() {
    let player = Initiative { initiative: 1 };
    let npcs = vec![
        Initiative { initiative: 0 },
        Initiative { initiative: 2 },
        Initiative { initiative: 1 },
        Initiative { initiative: 0 },
    ];
    for _ in 0..200 {
        let v = roll_initiative(&player, &npcs);
        assert_eq!(v.len(), 5);
        assert!(v
            .windows(2)
            .all(|w| w[0].0 < w[1].0 || (w[0].0 == w[1].0 && w[0].1 >= w[1].1)));
    }
    let same = vec![Initiative { initiative: 100 }];
    let v = roll_initiative(&Initiative { initiative: 100 }, &same);
    assert_eq!(v, vec![(100, 100), (100, 100)]);
}

#[test]
fn combat_start_rules() {
    assert_eq!(foes_to_spawn(&GroupSize(5)), Some(5));
    assert_eq!(foes_to_spawn(&GroupSize(0)), Some(0));
    assert_eq!(foes_to_spawn(&GroupSize(6)), None);
    assert_eq!(foes_to_spawn(&GroupSize(-1)), None);
    assert!(fair_play_over(false, &Team(TEAM_MC)));
    assert!(!fair_play_over(false, &Team(TEAM_OLF)));
    assert!(fair_play_over(true, &Team(TEAM_OLF)));
    assert!(is_threat(&Team(TEAM_OLF), &Team(TEAM_MC)));
    assert!(!is_threat(&Team(TEAM_MC), &Team(TEAM_MC)));
}

#[test]
fn dialog_dive_decisions() {
    assert!(matches!(dive_decision(&String::new(), 0, 0, true), Some(DiveAction::ForceClear)));
    let mono = "# A\n\n- a\n- b\n\n## B\n\n- c\n".to_string();
    assert!(matches!(dive_decision(&mono, 2, 0, true), Some(DiveAction::DropFirstText)));
    match dive_decision(&mono, 1, 0, true) {
        Some(DiveAction::SetTree(s)) => assert_eq!(s, "# B\n\n- c\n".to_string()),
        _ => panic!("expected the child"),
    }
    let choice = "# A\n\n- a | None\n- b | None\n\n## B\n\n- c\n\n## C\n\n- d\n".to_string();
    assert!(matches!(dive_decision(&choice, 0, 0, true), Some(DiveAction::Stay)));
    match dive_decision(&choice, 0, 1, false) {
        Some(DiveAction::SetTree(s)) => assert_eq!(s, "# C\n\n- d\n".to_string()),
        _ => panic!("expected the second child"),
    }
    assert!(dive_decision(&choice, 0, 2, false).is_none());
    let leaf = "# A\n\n- a\n".to_string();
    assert!(matches!(dive_decision(&leaf, 1, 0, true), Some(DiveAction::Clear)));
    assert!(dive_decision(&"# A\n\n- a | k: x;\n".to_string(), 0, 0, false).is_none());
}

#[test]
fn panel_animation_rules() {
    assert_eq!(scroll_frame_step(1, true), (0, true));
    assert_eq!(scroll_frame_step(5, true), (4, false));
    assert_eq!(scroll_frame_step(0, false), (1, false));
    assert_eq!(
        scroll_frame_step(SCROLL_ANIMATION_FRAMES_NUMBER - 3, false),
        (SCROLL_ANIMATION_FRAMES_NUMBER - 2, false)
    );
    assert_eq!(
        scroll_frame_step(SCROLL_ANIMATION_FRAMES_NUMBER - 2, false),
        (SCROLL_ANIMATION_FRAMES_NUMBER - 1, true)
    );
    let mut texts = vec!["a".to_string(), "b".to_string()];
    assert!(drop_first_text(&mut texts));
    assert_eq!(texts, vec!["b".to_string()]);
    let mut none: Vec<String> = vec![];
    assert!(!drop_first_text(&mut none));
    assert_eq!(shown_choices(2), 2);
    assert_eq!(shown_choices(7), 4);
    assert!(choice_button_visible(1, 2));
    assert!(!choice_button_visible(2, 2));
}

#[test]
fn letter_by_letter() {
    let t = "Hi".to_string();
    assert_eq!(next_letter(&t, 0), Some(('H', 1, false)));
    assert_eq!(next_letter(&t, 1), Some(('i', 2, true)));
    assert_eq!(next_letter(&t, 2), None);
    // an accented text counts its length in bytes: the last letter does not end it
    let e = "é".to_string();
    assert_eq!(next_letter(&e, 0), Some(('é', 1, false)));
    assert_eq!(next_letter(&e, 1), None);
}

#[test]
fn movement_directions() {
    assert_eq!(movement_axes(true, false, false, true), (1, 1, true));
    assert_eq!(movement_axes(false, true, true, false), (-1, -1, true));
    assert_eq!(movement_axes(true, true, false, false), (0, 0, false));
    assert_eq!(movement_axes(false, false, true, false), (-1, 0, false));
}

fn choice(text: &str, events: Option<Vec<&str>>, exit_state: usize) -> StateChoice {
    StateChoice {
        text: text.to_string(),
        condition: events.map(|e| StateCondition {
            events: e.into_iter().map(|x| x.to_string()).collect(),
            karma_threshold: None,
        }),
        exit_state,
    }
}

#[test]
fn world_events_and_states() {
    let mut active = vec![];
    throw_events(&mut active, &vec!["FrogTalk".to_string(), "Nope".to_string(), "FrogTalk".to_string()]);
    assert_eq!(active, vec![WorldEvent::FrogTalk]);
    assert!(speedrun_still_on(&active));
    throw_events(&mut active, &vec!["SpeedrunEnd".to_string()]);
    assert!(!speedrun_still_on(&active));

    let choices = vec![
        choice("Done ?", Some(vec!["FrogTalk"]), 3),
        choice("Love", Some(vec!["FrogLove"]), 4),
        choice("Free", None, 5),
    ];
    let offered = offered_choices(&choices, &active);
    assert_eq!(offered, vec![(3, "Done ?".to_string()), (5, "Free".to_string())]);
    assert_eq!(possible_exits(&choices, &active), vec![3, 5]);
    let next = npc_next_state(&choices, &active).unwrap();
    assert!(next == 3 || next == 5);
    let locked = vec![choice("Love", Some(vec!["FrogLove"]), 4)];
    assert_eq!(npc_next_state(&locked, &active), None);
    let node = StateNode {
        source: "Player".to_string(),
        content: StateContent::Choices(locked),
        trigger_event: vec![],
    };
    assert!(!state_is_available(&node, &active));
    let karma_locked = vec![StateChoice {
        text: "k".to_string(),
        condition: Some(StateCondition { events: vec![], karma_threshold: Some((0, 10)) }),
        exit_state: 1,
    }];
    assert!(possible_exits(&karma_locked, &active).is_empty());

    let mono = StateNode {
        source: "Frog".to_string(),
        content: StateContent::Monolog { text: vec!["KeroKero".to_string()], exit_state: 5 },
        trigger_event: vec![],
    };
    assert!(state_is_available(&mono, &active));
    let mut texts = vec!["a".to_string(), "b".to_string()];
    assert_eq!(continue_monolog(&mut texts, Some(&mono)), None);
    assert_eq!(texts, vec!["b".to_string()]);
    assert_eq!(continue_monolog(&mut texts, Some(&mono)), Some(5));
    assert_eq!(continue_monolog(&mut texts, None), None);
    assert_eq!(ButtonChoice::new(2), ButtonChoice { exit_state: 0, ui_posiiton: 2 });
}

#[test]
fn flat_form_example_tree() {
    let t = try_init_tree_flat(
        "[Hello]->[[I have to tell something], [You beat Olf !]->[[Now you can chill at the hospis]]]"
            .to_string(),
    )
    .unwrap();
    assert_eq!(t.dialog_type, vec![DialogType::Text("Hello".to_string())]);
    assert_eq!(t.children.len(), 1);
    let c = &t.children[0];
    assert_eq!(
        c.dialog_type,
        vec![
            DialogType::Text("I have to tell something".to_string()),
            DialogType::Text("You beat Olf !".to_string()),
        ]
    );
    assert_eq!(c.children.len(), 1);
    assert_eq!(
        c.children[0].dialog_type,
        vec![DialogType::Text("Now you can chill at the hospis".to_string())]
    );
}

#[test]
fn file_form_examples_with_unknown_events_are_refused() {
    let first = "# Morgan\n\n- Hello\n\n### Fabien lae Random\n\n- I have to tell something | None\n- You beat Olf ! | event: OlfBeaten;\n\n#### Fabien lae Random\n\n- Something\n\n#### Fabien lae Random\n\n- Now you can chill at the hospis\n\n-> OpenTheHospis\n";
    assert!(try_init_tree_file(first.to_string()).is_none());
    let second = "# Olf\n\n- Hello\n- Do you mind giving me your belongings ?\n- Or maybe...\n- You want to fight me ?\n\n### Morgan\n\n- Here my money | e: WonTheLottery;\n- You will feel my guitar | None\n- Call Homie | k: 10,MAX;\n\n#### Olf\n\n- Thank you very much\n\n#### Olf\n\n- Nice\n-> FightEvent\n\n#### Olf\n\n- Not Nice\n-> FightEvent\n";
    assert!(try_init_tree_file(second.to_string()).is_none());
    let known = second.replace("WonTheLottery", "HasFriend");
    let t = try_init_tree_file(known).unwrap();
    assert_eq!(t.dialog_type.len(), 4);
    assert_eq!(t.children.len(), 1);
    assert_eq!(t.children[0].children.len(), 3);
    assert_eq!(t.children[0].children[1].trigger_event, vec![ThrowableEvent::FightEvent]);
}

#[test]
fn node_without_elements_prints_and_reads_back() {
    let t = speaker_node("X", vec![]);
    assert_eq!(t.print_file(), "# X\n\n".to_string());
    assert_eq!(init_tree_file(t.print_file()), t);
}

#[test]
fn names_may_hold_bars_and_arrows() {
    let t = speaker_node("Olf | the >great<", vec![DialogType::Text("Hi".to_string())]);
    assert_eq!(init_tree_file(t.print_file()), t);
}

#[test]
fn unnamed_empty_node_deep_down_does_not_read_back() {
    // the smoothing of `#`, blank line, `#` into `##` joins an unnamed
    // element-less node with the header that follows it
    let mut y = speaker_node("C", vec![DialogType::Text("c".to_string())]);
    y.add_child(speaker_node("", vec![]));
    y.add_child(speaker_node("Z", vec![DialogType::Text("z".to_string())]));
    let mut w = speaker_node("B", vec![DialogType::Text("b".to_string())]);
    w.add_child(y);
    let mut v = speaker_node("A", vec![DialogType::Text("a".to_string())]);
    v.add_child(w);
    let written = v.print_file();
    assert!(written.contains("#####"));
    assert_ne!(try_init_tree_file(written), Some(v));
}

#[test]
fn print_file_drops_blanks_at_line_ends() {
    let n = speaker_node(
        "Morgan ",
        vec![
            DialogType::Text("Hi ".to_string()),
            DialogType::Choice {
                text: "Go".to_string(),
                condition: Some(DialogCondition { karma_threshold: None, event: None }),
            },
            DialogType::Choice {
                text: "Stay".to_string(),
                condition: Some(DialogCondition { karma_threshold: Some((1, 2)), event: Some(vec![]) }),
            },
        ],
    );
    assert_eq!(
        n.print_file(),
        "# Morgan\n\n- Hi\n- Go |\n- Stay | karma: 1,2;\n".to_string()
    );
}

const OLD_FROG_DIALOG: &str = "1:
  source: Old Frog
  content:
    text:
      - KeroKero
      - I want you to talk with the last Frog. All the way.
    exit_state: 2
2:
  source: Player
  content:
    - text: Done ?
      condition:
        events:
            - FrogTalk
      exit_state: 3
3:
  source: Old Frog
  content:
    text:
      - You have my respect.
      - Press Reset or alt+f4.
    exit_state: 4
  trigger_event:
      - SpeedrunEnd\n";

#[test]
fn yaml_dialog_loads_with_its_first_state() {
    let (first, states) = load_dialog(OLD_FROG_DIALOG).expect("the dialog reads");
    assert_eq!(first, 1);
    assert_eq!(states.iter().map(|s| s.0).collect::<Vec<usize>>(), vec![1, 2, 3]);
    assert_eq!(states[0].1.source, "Old Frog");
    match &states[0].1.content {
        StateContent::Monolog { text, exit_state } => {
            assert_eq!(text, &vec!["KeroKero".to_string(), "I want you to talk with the last Frog. All the way.".to_string()]);
            assert_eq!(*exit_state, 2);
        }
        StateContent::Choices(_) => panic!("a monologue was expected"),
    }
    match &states[1].1.content {
        StateContent::Choices(choices) => {
            assert_eq!(choices.len(), 1);
            assert_eq!(choices[0].text, "Done ?");
            assert_eq!(choices[0].exit_state, 3);
            let c = choices[0].condition.as_ref().expect("a condition");
            assert_eq!(c.events, vec!["FrogTalk".to_string()]);
            assert_eq!(c.karma_threshold, None);
        }
        StateContent::Monolog { .. } => panic!("choices were expected"),
    }
    assert_eq!(states[2].1.trigger_event, vec!["SpeedrunEnd".to_string()]);
}

#[test]
fn yaml_dialog_states_come_in_increasing_order() {
    let (first, states) = load_dialog("7:\n  source: B\n2:\n  source: A\n").expect("the dialog reads");
    assert_eq!(first, 2);
    assert_eq!(states[0].1.source, "A");
    assert_eq!(states[1].1.source, "B");
}

#[test]
fn yaml_dialog_that_is_no_map_or_empty_is_refused() {
    assert!(load_dialog("- a list\n- of things\n").is_none());
    assert!(load_dialog("{}").is_none());
}

#[test]
fn panel_shows_texts_and_the_choices_karma_allows() {
    let mut node = DialogNode::new();
    node.dialog_type = vec![
        DialogType::Text("Hello".to_string()),
        DialogType::Choice { text: "Free".to_string(), condition: None },
        DialogType::Choice {
            text: "Kind".to_string(),
            condition: Some(DialogCondition { karma_threshold: Some((10, 50)), event: None }),
        },
        DialogType::Choice {
            text: "Always".to_string(),
            condition: Some(DialogCondition { karma_threshold: Some((0, 0)), event: None }),
        },
    ];
    let (texts, choices) = panel_content(&node, 5);
    assert_eq!(texts, vec!["Hello".to_string()]);
    assert_eq!(choices, vec!["Free".to_string(), "Always".to_string()]);
    let (_, choices) = panel_content(&node, 20);
    assert_eq!(choices, vec!["Free".to_string(), "Kind".to_string(), "Always".to_string()]);
}

#[test]
fn flat_form_joins_texts_and_children() {
    let mut root = DialogNode::new();
    root.dialog_type = vec![DialogType::Text("Hello".to_string()), DialogType::Text("you".to_string())];
    let mut a = DialogNode::new();
    a.dialog_type = vec![DialogType::Choice { text: "Yes, sure".to_string(), condition: None }];
    let mut b = DialogNode::new();
    b.dialog_type = vec![];
    root.add_child(a);
    root.add_child(b);
    assert_eq!(root.print_flat(), "[Hello, you]->[[Yes, sure]; []]".to_string());
    // a node's texts ending with "; " lose it: the writer takes it for the
    // end of a list
    let mut x = DialogNode::new();
    x.dialog_type = vec![DialogType::Text("x".to_string())];
    let mut c = DialogNode::new();
    c.dialog_type = vec![DialogType::Text("a; ".to_string())];
    x.add_child(c);
    assert_eq!(x.print_flat(), "[x]->[[a]]".to_string());
}

#[test]
fn change_state_moves_only_to_an_available_state() {
    let (first, states) = load_dialog(OLD_FROG_DIALOG).expect("the dialog reads");
    let mut current = first;
    let mut active: Vec<WorldEvent> = Vec::new();
    // state 2 asks for FrogTalk, not thrown yet
    assert!(!change_state(&states, &mut current, 2, &mut active));
    assert_eq!(current, 1);
    // no state 9
    assert!(!change_state(&states, &mut current, 9, &mut active));
    assert_eq!(current, 1);
    // state 3 is a monologue that throws SpeedrunEnd
    assert!(change_state(&states, &mut current, 3, &mut active));
    assert_eq!(current, 3);
    assert_eq!(active, vec![WorldEvent::SpeedrunEnd]);
    active.push(WorldEvent::FrogTalk);
    assert!(change_state(&states, &mut current, 2, &mut active));
    assert_eq!(current, 2);
}
