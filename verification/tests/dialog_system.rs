// `print_file` ends the file form with a line break after its last line,
// and `init_tree_flat` reads the flat form only, which names no speaker.

use fight_arena::constants::{KARMA_MAX, KARMA_MIN};
use fight_arena::dialog::{DialogCondition, DialogNode, DialogType, GameEvent, ThrowableEvent};
use fight_arena::dialog_file::init_tree_file;
use fight_arena::dialog_flat::init_tree_flat;

#[test]
fn dialog_system_test_print_flat_child() {
            let mut dialog = DialogNode::new();
            dialog.dialog_type = vec![DialogType::Text(String::from("Hello"))];

            let mut answers = DialogNode::new();
            answers.dialog_type = vec![
                DialogType::Choice {
                    text: String::from("Hey"),
                    condition: None,
                },
                DialogType::Choice {
                    text: String::from("No Hello"),
                    condition: None,
                },
                DialogType::Choice {
                    text: String::from("Want to share a flat ?"),
                    condition: None,
                },
            ];

            dialog.add_child(answers);

            assert_eq!(
                dialog.print_flat(),
                "[Hello]->[[Hey, No Hello, Want to share a flat ?]]".to_string()
            );
}

#[test]
fn dialog_system_test_print_flat_children() {
            let mut dialog = DialogNode::new();
            dialog.dialog_type = vec![DialogType::Choice {
                text: String::from("Hello"),
                condition: None,
            }];
            // The Player
            dialog.character = Some((0b0000001u32, "Morgan".to_string()));

            let mut random_dialog = DialogNode::new();
            random_dialog.dialog_type =
                vec![DialogType::Text(String::from("I have to tell something"))];
            // The npc
            random_dialog.character = Some((0b0000010u32, "Fabien".to_string()));
            dialog.add_child(random_dialog);

            let mut olf_no_longer_a_dj = DialogNode::new();
            olf_no_longer_a_dj.dialog_type = vec![
                DialogType::Text(String::from("You beat Olf !")),
                DialogType::Text(String::from("Now you can chill at the hospis")),
            ];
            // The npc
            olf_no_longer_a_dj.character = Some((0b0000010u32, "Fabien".to_string()));
            dialog.add_child(olf_no_longer_a_dj);

            assert_eq!(
        dialog.print_flat(),
        "[Hello]->[[I have to tell something]; [You beat Olf !, Now you can chill at the hospis]]"
            .to_string()
    );
}

#[test]
fn dialog_system_test_print_flat_complex() {
            let mut dialog = DialogNode::new();
            dialog.dialog_type = vec![DialogType::Text(String::from("Hello"))];

            let mut answers = DialogNode::new();
            answers.dialog_type = vec![
                DialogType::Choice {
                    text: String::from("Hey"),
                    condition: None,
                },
                DialogType::Choice {
                    text: String::from("No Hello"),
                    condition: None,
                },
                DialogType::Choice {
                    text: String::from("Want to share a flat ?"),
                    condition: None,
                },
            ];

            let mut dialog_2 = DialogNode::new();
            dialog_2.dialog_type = vec![DialogType::Text(String::from(":)"))];

            let mut dialog_3 = DialogNode::new();
            dialog_3.dialog_type = vec![DialogType::Text(String::from(":O"))];

            let mut dialog_4 = DialogNode::new();
            dialog_4.dialog_type = vec![DialogType::Text(String::from("Sure"))];

            answers.add_child(dialog_2);
            answers.add_child(dialog_3);
            answers.add_child(dialog_4);

            dialog.add_child(answers);

            assert_eq!(
                dialog.print_flat(),
                "[Hello]->[[Hey, No Hello, Want to share a flat ?]->[[:)]; [:O]; [Sure]]]"
                    .to_string()
            );
}

#[test]
fn dialog_system_test_init_tree_flat_simple_text_1() {
            let root = init_tree_flat(String::from("[Hello]"));
            assert_eq!(
                root.dialog_type,
                vec![DialogType::Text("Hello".to_string())]
            );
}

#[test]
fn dialog_system_test_init_tree_flat_simple_text_2() {
            let root = init_tree_flat(String::from("[I want to talk]"));
            assert_eq!(
                root.dialog_type,
                vec![DialogType::Text("I want to talk".to_string())]
            );
}

#[test]
fn dialog_system_test_init_tree_flat_simple_choice_1() {
            // carefull with
            let root = init_tree_flat(String::from("[Let's talk,I don't wanna talk]"));
            assert_eq!(
                root.dialog_type,
                vec![
                    DialogType::Choice {
                        text: "Let's talk".to_string(),
                        condition: None
                    },
                    DialogType::Choice {
                        text: "I don't wanna talk".to_string(),
                        condition: None
                    }
                ]
            );
}

#[test]
fn dialog_system_test_init_tree_flat_simple_choice_spaced() {
            // carefull with
            let root = init_tree_flat(String::from("[Let's talk, I don't wanna talk]"));
            assert_eq!(
                root.dialog_type,
                vec![
                    DialogType::Choice {
                        text: "Let's talk".to_string(),
                        condition: None
                    },
                    DialogType::Choice {
                        text: "I don't wanna talk".to_string(),
                        condition: None
                    }
                ]
            );
}

#[test]
fn dialog_system_test_init_tree_flat_famiglia_figlio_unico() {
            // TODO: find out what the warning referred to
            // carefull with ???
            let root = init_tree_flat(String::from(
                "[Catchphrase]->[[I love you, Give me your wallet]]",
            ));

            assert_eq!(
                root.dialog_type,
                vec![DialogType::Text("Catchphrase".to_string())]
            );

            assert_eq!(
                root.children[0].dialog_type,
                vec![
                    DialogType::Choice {
                        text: "I love you".to_string(),
                        condition: None
                    },
                    DialogType::Choice {
                        text: "Give me your wallet".to_string(),
                        condition: None
                    }
                ]
            );
}

#[test]
fn dialog_system_test_init_tree_flat_famiglia() {
            let root = init_tree_flat(String::from(
            "[Catchphrase]->[[I love you, Give me your wallet]->[[Me Too]; [Here all my chicken sandwich]]]",
        ));

            assert_eq!(
                root.children[0].dialog_type,
                vec![
                    DialogType::Choice {
                        text: String::from("I love you"),
                        condition: None
                    },
                    DialogType::Choice {
                        text: String::from("Give me your wallet"),
                        condition: None
                    }
                ]
            );

            assert_eq!(
                root.children[0].children[0].dialog_type,
                vec![DialogType::Text("Me Too".to_string())]
            );

            assert_eq!(
                root.children[0].children[1].dialog_type,
                vec![DialogType::Text("Here all my chicken sandwich".to_string())]
            );
}

#[test]
fn dialog_system_test_init_tree_flat_complex_famiglia() {
            // helped me see that accent wasn't include in the ascii char

            let root = init_tree_flat(String::from(
            "[Il faut absolument sauver les Fabien du Chien Géant]->[[Il me faut donc obtenir le trône...]->[[...,et de l'argent]->[[Et de l'argent]->[[C'est essentiel]]];[C'est essentiel]]]",
        ));

            // root
            assert_eq!(
                root.dialog_type,
                vec![DialogType::Text(String::from(
                    "Il faut absolument sauver les Fabien du Chien Géant"
                ))]
            );

            // first and only child of root
            assert_eq!(
                root.children[0].dialog_type,
                vec![DialogType::Text(String::from(
                    "Il me faut donc obtenir le trône..."
                ))]
            );

            // choose of the player
            assert_eq!(
                root.children[0].children[0].dialog_type,
                vec![
                    DialogType::Choice {
                        text: "...".to_string(),
                        condition: None
                    },
                    DialogType::Choice {
                        text: "et de l'argent".to_string(),
                        condition: None
                    }
                ]
            );

            // two possible outcome from the player's answer

            // first (when the player don't say anything == "...")
            assert_eq!(
                root.children[0].children[0].children[0].dialog_type,
                vec![DialogType::Text("Et de l'argent".to_string())]
            );
            // just after the npc said "Et de l'argent"
            assert_eq!(
                root.children[0].children[0].children[0].children[0].dialog_type,
                vec![DialogType::Text("C'est essentiel".to_string())]
            );

            // println!("{}", root.print_flat());

            // second
            assert_eq!(
                root.children[0].children[1].dialog_type,
                vec![DialogType::Text("C'est essentiel".to_string())]
            );

            // test print
            assert_eq!(
            root.print_flat(),
            "[Il faut absolument sauver les Fabien du Chien Géant]->[[Il me faut donc obtenir le trône...]->[[..., et de l'argent]->[[Et de l'argent]->[[C'est essentiel]]]; [C'est essentiel]]]".to_string()
        );
}

#[test]
fn dialog_system_test_print_from_file() {
            let fabien = Some((0, String::from("Fabien")));
            let morgan = Some((1, String::from("Morgan")));

            let mut dialog = DialogNode::new();
            dialog.dialog_type = vec![DialogType::Text(String::from("Hello"))];

            dialog.character = fabien.clone();

            let mut answers = DialogNode::new();
            answers.dialog_type = vec![
                DialogType::Choice {
                    text: String::from("Hey"),
                    condition: None,
                },
                DialogType::Choice {
                    text: String::from("No Hello"),
                    condition: None,
                },
                DialogType::Choice {
                    text: String::from("Want to share a flat ?"),
                    condition: None,
                },
            ];

            answers.character = morgan;

            let mut dialog_2 = DialogNode::new();
            dialog_2.dialog_type = vec![DialogType::Text(String::from(":)"))];
            dialog_2.character = fabien.clone();

            let mut dialog_3 = DialogNode::new();
            dialog_3.dialog_type = vec![DialogType::Text(String::from(":O"))];
            dialog_3.character = fabien.clone();

            let mut dialog_4 = DialogNode::new();
            dialog_4.dialog_type = vec![DialogType::Text(String::from("Sure"))];
            dialog_4.character = fabien.clone();

            answers.add_child(dialog_2);
            answers.add_child(dialog_3);
            answers.add_child(dialog_4);

            dialog.add_child(answers);

            // println!("{}", dialog.print_flat());

            assert_eq!(
                dialog.print_file(),
                "# Fabien

- Hello

## Morgan

- Hey | None
- No Hello | None
- Want to share a flat ? | None

### Fabien

- :)

### Fabien

- :O

### Fabien

- Sure\n"
                    .to_string()
            );
}

#[test]
fn test_print_from_file_monologue() {

            let root = init_tree_file(String::from("# Olf\n\n- Hello\n- Did you just\n- Call me ?\n- Or was it my imagination\n"));

            assert_eq!(
                root.print_file(),
                "# Olf\n\n- Hello\n- Did you just\n- Call me ?\n- Or was it my imagination\n".to_string()
            );
}

#[test]
fn dialog_system_test_init_tree_from_file_simple_text_1() {
            let root = init_tree_file(String::from("# Olf\n\n- Hello\n"));

            assert_eq!(root.character, Some((0, String::from("Olf"))));

            assert_eq!(
                root.dialog_type,
                vec![DialogType::Text("Hello".to_string())]
            );
}

#[test]
fn test_init_tree_from_file_space_overdose_1() {
            let root = init_tree_file(String::from("#            Olf\n\n-      Hello\n"));

            assert_eq!(root.character, Some((0, String::from("Olf"))));

            assert_eq!(
                root.dialog_type,
                vec![DialogType::Text("Hello".to_string())]
            );
}

#[test]
fn test_init_tree_from_file_space_overdose_2() {
            let root = init_tree_file(String::from(
                "# Morgan\n\n- Hello         |   None\n- No Hello    | None\n",
            ));

            assert_eq!(root.character, Some((0, String::from("Morgan"))));

            assert_eq!(
                root.dialog_type,
                vec![
                    DialogType::Choice {
                        text: "Hello".to_string(),
                        condition: None
                    },
                    DialogType::Choice {
                        text: "No Hello".to_string(),
                        condition: None
                    }
                ]
            );
}

#[test]
fn test_init_tree_from_file_space_deficiency_1() {
            let root = init_tree_file(String::from("#Olf\n\n-Hello\n"));

            assert_eq!(root.character, Some((0, String::from("Olf"))));

            assert_eq!(
                root.dialog_type,
                vec![DialogType::Text("Hello".to_string())]
            );
}

#[test]
fn test_init_tree_from_file_space_deficiency_2() {
            let root = init_tree_file(String::from("# Morgan\n\n- Hello|None\n- No Hello|None\n"));

            assert_eq!(root.character, Some((0, String::from("Morgan"))));

            assert_eq!(
                root.dialog_type,
                vec![
                    DialogType::Choice {
                        text: "Hello".to_string(),
                        condition: None
                    },
                    DialogType::Choice {
                        text: "No Hello".to_string(),
                        condition: None
                    }
                ]
            );
}

#[test]
fn test_init_tree_from_file_monologue_1() {
            let root = init_tree_file(String::from(
                "# Morgan\n\n- Hello\n- I was wondering\n-Alone...\n",
            ));

            assert_eq!(root.character, Some((0, String::from("Morgan"))));

            assert_eq!(
                root.dialog_type,
                vec![
                    DialogType::Text("Hello".to_string()),
                    DialogType::Text("I was wondering".to_string()),
                    DialogType::Text("Alone...".to_string())
                ]
            );
}

#[test]
fn test_init_tree_from_file_simple_choice_1() {
            let root = init_tree_file(String::from(
                "# Morgan\n\n- Hello | None\n- No Hello | None\n",
            ));

            assert_eq!(root.character, Some((0, String::from("Morgan"))));

            assert_eq!(
                root.dialog_type,
                vec![
                    DialogType::Choice {
                        text: "Hello".to_string(),
                        condition: None
                    },
                    DialogType::Choice {
                        text: "No Hello".to_string(),
                        condition: None
                    }
                ]
            );
}

#[test]
fn test_init_tree_from_file_complex_choice_1() {
            let root = init_tree_file(String::from(
                "# Morgan\n\n- Hello | None\n- No Hello | k: -10,0;\n",
            ));

            assert_eq!(root.character, Some((0, String::from("Morgan"))));

            assert_eq!(
                root.dialog_type,
                vec![
                    DialogType::Choice {
                        text: "Hello".to_string(),
                        condition: None
                    },
                    DialogType::Choice {
                        text: "No Hello".to_string(),
                        condition: Some(DialogCondition {
                            karma_threshold: Some((-10, 0)),
                            event: None
                        })
                    }
                ]
            );
}

#[test]
fn test_init_tree_from_file_complex_choice_2() {
            let root = init_tree_file(String::from(
                "# Morgan\n\n- Hello | None\n- Mary me Hugo. | e: HasCharisma;\n",
            ));

            assert_eq!(root.character, Some((0, String::from("Morgan"))));

            assert_eq!(
                root.dialog_type,
                vec![
                    DialogType::Choice {
                        text: "Hello".to_string(),
                        condition: None
                    },
                    DialogType::Choice {
                        text: "Mary me Hugo.".to_string(),
                        condition: Some(DialogCondition {
                            karma_threshold: None,
                            event: Some(vec![GameEvent::HasCharisma])
                        })
                    }
                ]
            );
}

#[test]
fn test_init_tree_from_file_complex_choice_3() {
            let root = init_tree_file(String::from(
                "# Morgan\n\n- Hello | k: -50,100;\n- No Hello | karma : -100,0;\n",
            ));

            assert_eq!(root.character, Some((0, String::from("Morgan"))));

            assert_eq!(
                root.dialog_type,
                vec![
                    DialogType::Choice {
                        text: "Hello".to_string(),
                        condition: Some(DialogCondition {
                            karma_threshold: Some((-50, 100)),
                            event: None
                        })
                    },
                    DialogType::Choice {
                        text: "No Hello".to_string(),
                        condition: Some(DialogCondition {
                            karma_threshold: Some((-100, 0)),
                            event: None
                        })
                    }
                ]
            );
}

#[test]
fn test_init_tree_from_file_complex_choice_4() {
            let root = init_tree_file(String::from(
                "# Morgan\n\n- Hello my Friend | e: HasFriend;\n- You droped this (*crown*) | event: HasCharisma;\n",
            ));

            assert_eq!(root.character, Some((0, String::from("Morgan"))));

            assert_eq!(
                root.dialog_type,
                vec![
                    DialogType::Choice {
                        text: "Hello my Friend".to_string(),
                        condition: Some(DialogCondition {
                            karma_threshold: None,
                            event: Some(vec![GameEvent::HasFriend])
                        })
                    },
                    DialogType::Choice {
                        text: "You droped this (*crown*)".to_string(),
                        condition: Some(DialogCondition {
                            karma_threshold: None,
                            event: Some(vec![GameEvent::HasCharisma])
                        })
                    }
                ]
            );
}

#[test]
fn test_init_tree_from_file_complex_choice_karma_max_min() {
            let root = init_tree_file(String::from(
                "# Morgan\n\n- Hello | k: -10,MAX;\n- No Hello | k: MIN,0;\n",
            ));

            assert_eq!(root.character, Some((0, String::from("Morgan"))));

            assert_eq!(
                root.dialog_type,
                vec![
                    DialogType::Choice {
                        text: "Hello".to_string(),
                        condition: Some(DialogCondition {
                            karma_threshold: Some((-10, KARMA_MAX)),
                            event: None
                        })
                    },
                    DialogType::Choice {
                        text: "No Hello".to_string(),
                        condition: Some(DialogCondition {
                            karma_threshold: Some((KARMA_MIN, 0)),
                            event: None
                        })
                    }
                ]
            );
}

#[test]
fn test_init_tree_from_file_simple_kinship_1() {
            let root = init_tree_file(String::from(
                "# Morgan\n\n- Hello\n## Hugo\n- Hey! How are you ?\n",
            ));

            assert_eq!(root.character, Some((0, String::from("Morgan"))));
            assert_eq!(
                root.children[0].character,
                Some((0, String::from("Hugo")))
            );

            assert_eq!(
                root.dialog_type,
                vec![DialogType::Text("Hello".to_string())]
            );
            assert_eq!(
                root.children[0].dialog_type,
                vec![DialogType::Text("Hey! How are you ?".to_string())]
            );
}

#[test]
fn test_init_tree_from_file_monologue_2() {
            let root = init_tree_file(String::from("# Morgan\n\n- Hello\n- I was wondering\n\n## Morgan\n\n- With Friends ! | event: HasFriend;\n- Alone... | None\n"));

            assert_eq!(root.character, Some((0, String::from("Morgan"))));

            assert_eq!(
                root.dialog_type,
                vec![
                    DialogType::Text("Hello".to_string()),
                    DialogType::Text("I was wondering".to_string())
                ]
            );

            assert_eq!(
                root.children[0].character,
                Some((0, String::from("Morgan")))
            );

            assert_eq!(
                root.children[0].dialog_type,
                vec![
                    DialogType::Choice {
                        text: "With Friends !".to_string(),
                        condition: Some(DialogCondition {
                            karma_threshold: None,
                            event: Some(vec![GameEvent::HasFriend])
                        })
                    },
                    DialogType::Choice {
                        text: "Alone...".to_string(),
                        condition: None
                    }
                ]
            );
}

#[test]
fn test_init_tree_from_file_complex_kinship_1() {
            let root = init_tree_file(String::from(
                "# Morgan\n\n- Hello | None\n- Do you want to work with me ? | None\n\n## Hugo\n\n- Hey! How are you ?\n\n## Hugo\n\n- I'm sure you'll do just fine without me.\n",
            ));

            assert_eq!(root.character, Some((0, String::from("Morgan"))));
            assert_eq!(
                root.dialog_type,
                vec![
                    DialogType::Choice {
                        text: "Hello".to_string(),
                        condition: None
                    },
                    DialogType::Choice {
                        text: "Do you want to work with me ?".to_string(),
                        condition: None
                    }
                ]
            );

            println!("{}", root.print_file());

            // By choosing the n-eme choice, you will get the result of the n-eme child.

            assert_eq!(
                root.children[0].character,
                Some((0, String::from("Hugo")))
            );
            assert_eq!(
                root.children[0].dialog_type,
                vec![DialogType::Text("Hey! How are you ?".to_string())]
            );

            assert_eq!(
                root.children[1].character,
                Some((0, String::from("Hugo")))
            );
            assert_eq!(
                root.children[1].dialog_type,
                vec![DialogType::Text(
                    "I'm sure you'll do just fine without me.".to_string()
                )]
            );
}

#[test]
fn test_init_tree_from_file_throwable_event_1() {
            let root = init_tree_file(String::from(
                "# Morgan\n\n- Let's Talk | None\n- Let's Fight | None\n\n## Hugo\n\n- :)\n\n-> HasFriend\n\n## Hugo\n\n- :(\n\n-> FightEvent\n",
            ));

            assert_eq!(root.character, Some((0, String::from("Morgan"))));
            assert_eq!(
                root.dialog_type,
                vec![
                    DialogType::Choice {
                        text: "Let's Talk".to_string(),
                        condition: None
                    },
                    DialogType::Choice {
                        text: "Let's Fight".to_string(),
                        condition: None
                    }
                ]
            );

            println!("{}", root.print_file());

            // By choosing the n-eme choice, you will get the result of the n-eme child.

            // first child
            assert_eq!(
                root.children[0].character,
                Some((0, String::from("Hugo")))
            );
            assert_eq!(
                root.children[0].dialog_type,
                vec![DialogType::Text(":)".to_string())]
            );
            assert_eq!(
                root.children[0].trigger_event,
                vec![ThrowableEvent::HasFriend]
            );

            // second child
            assert_eq!(
                root.children[1].character,
                Some((0, String::from("Hugo")))
            );
            assert_eq!(
                root.children[1].dialog_type,
                vec![DialogType::Text(":(".to_string())]
            );
            assert_eq!(
                root.children[1].trigger_event,
                vec![ThrowableEvent::FightEvent]
            );
}

#[test]
fn test_init_tree_from_file_except_1() {
            let root = init_tree_file(String::from(
                "# Morgan\n\n- Bonjour Florian. /\nComment vas/-tu :/# ? /\nJ'ai faim. /<3 /</|3\n",
            ));

            assert_eq!(root.character, Some((0, String::from("Morgan"))));

            assert_eq!(
                root.dialog_type,
                vec![DialogType::Text(
                    "Bonjour Florian. \nComment vas-tu :# ? \nJ'ai faim. <3 <|3".to_string()
                )]
            );
}

#[test]
fn dialog_system_test_test_print_flat_child() {
        let mut dialog = DialogNode::new();
        dialog.dialog_type = vec![DialogType::Text(String::from("Hello"))];

        let mut answers = DialogNode::new();
        answers.dialog_type = vec![
            DialogType::Choice {
                text: String::from("Hey"),
                condition: None,
            },
            DialogType::Choice {
                text: String::from("No Hello"),
                condition: None,
            },
            DialogType::Choice {
                text: String::from("Want to share a flat ?"),
                condition: None,
            },
        ];

        dialog.add_child(answers);

        assert_eq!(
            dialog.print_flat(),
            "[Hello]->[[Hey, No Hello, Want to share a flat ?]]".to_string()
        );
}

#[test]
fn dialog_system_test_test_print_flat_children() {
        let mut dialog = DialogNode::new();
        dialog.dialog_type = vec![DialogType::Choice {
            text: String::from("Hello"),
            condition: None,
        }];
        // The Player
        dialog.character = Some((0b0000001u32, "Morgan".to_string()));

        let mut random_dialog = DialogNode::new();
        random_dialog.dialog_type =
            vec![DialogType::Text(String::from("I have to tell something"))];
        // The npc
        random_dialog.character = Some((0b0000010u32, "Fabien".to_string()));
        dialog.add_child(random_dialog);

        let mut olf_no_longer_a_dj = DialogNode::new();
        olf_no_longer_a_dj.dialog_type = vec![
            DialogType::Text(String::from("You beat Olf !")),
            DialogType::Text(String::from("Now you can chill at the hospis")),
        ];
        // The npc
        olf_no_longer_a_dj.character = Some((0b0000010u32, "Fabien".to_string()));
        dialog.add_child(olf_no_longer_a_dj);

        assert_eq!(dialog.print_flat(), "[Hello]->[[I have to tell something]; [You beat Olf !, Now you can chill at the hospis]]".to_string());
}

#[test]
fn dialog_system_test_test_print_flat_complex() {
        let mut dialog = DialogNode::new();
        dialog.dialog_type = vec![DialogType::Text(String::from("Hello"))];

        let mut answers = DialogNode::new();
        answers.dialog_type = vec![
            DialogType::Choice {
                text: String::from("Hey"),
                condition: None,
            },
            DialogType::Choice {
                text: String::from("No Hello"),
                condition: None,
            },
            DialogType::Choice {
                text: String::from("Want to share a flat ?"),
                condition: None,
            },
        ];

        let mut dialog_2 = DialogNode::new();
        dialog_2.dialog_type = vec![DialogType::Text(String::from(":)"))];

        let mut dialog_3 = DialogNode::new();
        dialog_3.dialog_type = vec![DialogType::Text(String::from(":O"))];

        let mut dialog_4 = DialogNode::new();
        dialog_4.dialog_type = vec![DialogType::Text(String::from("Sure"))];

        answers.add_child(dialog_2);
        answers.add_child(dialog_3);
        answers.add_child(dialog_4);

        dialog.add_child(answers);

        assert_eq!(
            dialog.print_flat(),
            "[Hello]->[[Hey, No Hello, Want to share a flat ?]->[[:)]; [:O]; [Sure]]]".to_string()
        );
}

#[test]
fn dialog_system_test_test_init_tree_flat_simple_text_1() {
            let root = init_tree_flat(String::from("[Hello]"));
            assert_eq!(
                root.dialog_type,
                vec![DialogType::Text("Hello".to_string())]
            );
}

#[test]
fn dialog_system_test_test_init_tree_flat_simple_text_2() {
            let root = init_tree_flat(String::from("[I want to talk]"));
            assert_eq!(
                root.dialog_type,
                vec![DialogType::Text("I want to talk".to_string())]
            );
}

#[test]
fn dialog_system_test_test_init_tree_flat_simple_choice_1() {
            // carefull with
            let root = init_tree_flat(String::from("[Let's talk,I don't wanna talk]"));
            assert_eq!(
                root.dialog_type,
                vec![
                    DialogType::Choice {
                        text: "Let's talk".to_string(),
                        condition: None
                    },
                    DialogType::Choice {
                        text: "I don't wanna talk".to_string(),
                        condition: None
                    }
                ]
            );
}

#[test]
fn dialog_system_test_test_init_tree_flat_simple_choice_spaced() {
            // carefull with
            let root = init_tree_flat(String::from("[Let's talk, I don't wanna talk]"));
            assert_eq!(
                root.dialog_type,
                vec![
                    DialogType::Choice {
                        text: "Let's talk".to_string(),
                        condition: None
                    },
                    DialogType::Choice {
                        text: "I don't wanna talk".to_string(),
                        condition: None
                    }
                ]
            );
}

#[test]
fn dialog_system_test_test_init_tree_flat_famiglia_figlio_unico() {
            // TODO: find out what the warning referred to
            // carefull with ???
            let root = init_tree_flat(String::from(
                "[Catchphrase]->[[I love you, Give me your wallet]]",
            ));

            assert_eq!(
                root.dialog_type,
                vec![DialogType::Text("Catchphrase".to_string())]
            );

            assert_eq!(
                root.children[0].dialog_type,
                vec![
                    DialogType::Choice {
                        text: "I love you".to_string(),
                        condition: None
                    },
                    DialogType::Choice {
                        text: "Give me your wallet".to_string(),
                        condition: None
                    }
                ]
            );
}

#[test]
fn dialog_system_test_test_init_tree_flat_famiglia() {
            let root = init_tree_flat(String::from(
            "[Catchphrase]->[[I love you, Give me your wallet]->[[Me Too]; [Here all my chicken sandwich]]]",
        ));

            assert_eq!(
                root.children[0].dialog_type,
                vec![
                    DialogType::Choice {
                        text: String::from("I love you"),
                        condition: None
                    },
                    DialogType::Choice {
                        text: String::from("Give me your wallet"),
                        condition: None
                    }
                ]
            );

            assert_eq!(
                root.children[0].children[0].dialog_type,
                vec![DialogType::Text("Me Too".to_string())]
            );

            assert_eq!(
                root.children[0].children[1].dialog_type,
                vec![DialogType::Text("Here all my chicken sandwich".to_string())]
            );
}

#[test]
fn dialog_system_test_test_init_tree_flat_complex_famiglia() {
            // helped me see that accent wasn't include in the ascii char

            let root = init_tree_flat(String::from(
            "[Il faut absolument sauver les Fabien du Chien Géant]->[[Il me faut donc obtenir le trône...]->[[...,et de l'argent]->[[Et de l'argent]->[[C'est essentiel]]];[C'est essentiel]]]",
        ));

            // root
            assert_eq!(
                root.dialog_type,
                vec![DialogType::Text(String::from(
                    "Il faut absolument sauver les Fabien du Chien Géant"
                ))]
            );

            // first and only child of root
            assert_eq!(
                root.children[0].dialog_type,
                vec![DialogType::Text(String::from(
                    "Il me faut donc obtenir le trône..."
                ))]
            );

            // choose of the player
            assert_eq!(
                root.children[0].children[0].dialog_type,
                vec![
                    DialogType::Choice {
                        text: "...".to_string(),
                        condition: None
                    },
                    DialogType::Choice {
                        text: "et de l'argent".to_string(),
                        condition: None
                    }
                ]
            );

            // two possible outcome from the player's answer

            // first (when the player don't say anything == "...")
            assert_eq!(
                root.children[0].children[0].children[0].dialog_type,
                vec![DialogType::Text("Et de l'argent".to_string())]
            );
            // just after the npc said "Et de l'argent"
            assert_eq!(
                root.children[0].children[0].children[0].children[0].dialog_type,
                vec![DialogType::Text("C'est essentiel".to_string())]
            );

            // println!("{}", root.print_flat());

            // second
            assert_eq!(
                root.children[0].children[1].dialog_type,
                vec![DialogType::Text("C'est essentiel".to_string())]
            );

            // test print
            assert_eq!(
            root.print_flat(),
            "[Il faut absolument sauver les Fabien du Chien Géant]->[[Il me faut donc obtenir le trône...]->[[..., et de l'argent]->[[Et de l'argent]->[[C'est essentiel]]]; [C'est essentiel]]]".to_string()
        );
}
