use gittre::keymap::{
    base, chords_from, export_preview, file_view, help, help_view, key_display, key_for,
    keys_label, log, lookup, picker, review, seq_display, Action, Ctx, Guard, HelpItem, KeyCode,
    KeyModifiers, KeyPress, Lookup, MediaKeyCode, ModifierKeyCode,
};

fn press(code: KeyCode) -> KeyPress {
    KeyPress::new(code, KeyModifiers::none())
}

fn with(code: KeyCode, shift: bool, control: bool, alt: bool) -> KeyPress {
    KeyPress::new(
        code,
        KeyModifiers {
            shift,
            control,
            alt,
        },
    )
}

#[test]
fn chords_resolve_in_two_steps() {
    let g = press(KeyCode::Char('g'));
    assert!(matches!(
        lookup(&review(), Ctx::default(), None, g),
        Lookup::Pending
    ));
    assert!(matches!(
        lookup(&review(), Ctx::default(), Some(g), g),
        Lookup::Act(Action::GotoTop)
    ));
    assert!(matches!(
        lookup(&review(), Ctx::default(), Some(g), press(KeyCode::Char('e'))),
        Lookup::Act(Action::GotoBottom)
    ));
    // A broken chord swallows the key: gj must not scroll or fire g-alone.
    assert!(matches!(
        lookup(&review(), Ctx::default(), Some(g), press(KeyCode::Char('j'))),
        Lookup::Nothing
    ));
}

#[test]
fn control_distinguishes_bindings() {
    let d = press(KeyCode::Char('d'));
    let ctrl_d = with(KeyCode::Char('d'), false, true, false);
    assert!(matches!(
        lookup(&review(), Ctx::default(), None, d),
        Lookup::Act(Action::DeleteComment)
    ));
    assert!(matches!(
        lookup(&review(), Ctx::default(), None, ctrl_d),
        Lookup::Act(Action::HalfPageDown)
    ));
}

#[test]
fn shift_is_normalized_away() {
    // Terminals report G as Char('G') + SHIFT; the char alone decides.
    let big_g = with(KeyCode::Char('G'), true, false, false);
    assert!(matches!(
        lookup(&review(), Ctx::default(), None, big_g),
        Lookup::Act(Action::GotoBottom)
    ));
}

#[test]
fn search_guard_overloads_n() {
    let n = press(KeyCode::Char('n'));
    assert!(matches!(
        lookup(&review(), Ctx::default(), None, n),
        Lookup::Act(Action::NextHunk)
    ));
    let searching = Ctx {
        search_active: true,
    };
    assert!(matches!(
        lookup(&review(), searching, None, n),
        Lookup::Act(Action::NextMatch)
    ));
}

#[test]
fn no_table_has_conflicting_bindings() {
    let overlap = |a: Guard, b: Guard| a == Guard::Always || b == Guard::Always || a == b;
    for (name, table) in [
        ("REVIEW", review()),
        ("PICKER", picker()),
        ("LOG", log()),
        ("BASE", base()),
        ("FILE_VIEW", file_view()),
        ("EXPORT_PREVIEW", export_preview()),
        ("HELP_VIEW", help_view()),
    ] {
        for (i, a) in table.iter().enumerate() {
            for b in &table[i + 1..] {
                assert!(
                    !(a.seq == b.seq && overlap(a.guard, b.guard)),
                    "{name}: {} bound twice",
                    seq_display(&a.seq)
                );
                // A single binding on a chord's prefix key is unreachable.
                if a.seq.len() != b.seq.len() {
                    let (short, long) = if a.seq.len() == 1 { (a, b) } else { (b, a) };
                    assert!(
                        !(short.seq[0] == long.seq[0] && overlap(a.guard, b.guard)),
                        "{name}: {} shadowed by chord {}",
                        seq_display(&short.seq),
                        seq_display(&long.seq)
                    );
                }
            }
        }
    }
}

#[test]
fn labels_derive_from_tables() {
    assert_eq!(keys_label(&review(), &[Action::Down, Action::Up]), "j/k");
    assert_eq!(key_for(&review(), Action::GotoTop), "gg");
    assert_eq!(key_for(&review(), Action::HalfPageDown), "⌃d");
    assert_eq!(key_for(&export_preview(), Action::WriteFile), "w");
    assert_eq!(key_for(&picker(), Action::GotoTop), "");
}

#[test]
fn help_keeps_accelerators_removed_from_the_normal_bar() {
    let help_has = |action| {
        help().iter().any(|section| {
            section.items.iter().any(
                |item| matches!(item, HelpItem::Act(actions, _) if actions.contains(&action)),
            )
        })
    };

    for action in [
        Action::NextHunk,
        Action::PrevHunk,
        Action::NextComment,
        Action::PrevComment,
        Action::NarrowTree,
        Action::WidenTree,
        Action::AutoTreeWidth,
    ] {
        assert!(help_has(action), "{action:?} missing from help");
    }
}

#[test]
fn keys_have_names() {
    assert_eq!(key_display(press(KeyCode::Char(' '))), "Space");
    assert_eq!(key_display(press(KeyCode::Enter)), "⏎");
    assert_eq!(key_display(with(KeyCode::Enter, false, false, true)), "Alt+⏎");
    assert_eq!(key_display(with(KeyCode::F(12), true, false, false)), "F(12)");
    assert_eq!(key_display(press(KeyCode::BackTab)), "Shift+Tab");
}

#[test]
fn a_held_prefix_lists_its_chords() {
    let hints: Vec<(String, &str)> = chords_from(&log(), press(KeyCode::Char('g')))
        .into_iter()
        .map(|h| (h.key, h.desc))
        .collect();
    assert_eq!(
        hints,
        vec![("gg".to_string(), "top"), ("ge".to_string(), "bottom")]
    );
    assert!(chords_from(&help_view(), press(KeyCode::Char('g'))).is_empty());
    assert_eq!(base().len(), 18);
    assert_eq!(file_view().len(), 19);
}

#[test]
fn keys_without_a_symbol_show_their_own_names() {
    for (code, name) in [
        (KeyCode::Backspace, "Backspace"),
        (KeyCode::F(5), "F(5)"),
        (KeyCode::CapsLock, "CapsLock"),
        (KeyCode::ScrollLock, "ScrollLock"),
        (KeyCode::NumLock, "NumLock"),
        (KeyCode::PrintScreen, "PrintScreen"),
        (KeyCode::Pause, "Pause"),
        (KeyCode::Menu, "Menu"),
        (KeyCode::KeypadBegin, "KeypadBegin"),
        (KeyCode::Media(MediaKeyCode::PlayPause), "Media(PlayPause)"),
        (
            KeyCode::Modifier(ModifierKeyCode::IsoLevel3Shift),
            "Modifier(IsoLevel3Shift)",
        ),
    ] {
        assert_eq!(key_display(press(code)), name);
        assert_eq!(format!("{code:?}"), name);
    }
    assert_eq!(
        key_display(with(KeyCode::Menu, false, true, false)),
        "⌃Menu"
    );
}

#[test]
fn every_binding_is_reached_by_its_keys() {
    for table in [review(), picker(), log(), base(), file_view(), export_preview(), help_view()] {
        for b in &table {
            let ctx = Ctx {
                search_active: b.guard == Guard::SearchActive,
            };
            let last = b.seq[b.seq.len() - 1];
            let held = if b.seq.len() == 2 {
                assert!(matches!(lookup(&table, ctx, None, b.seq[0]), Lookup::Pending));
                Some(b.seq[0])
            } else {
                None
            };
            assert!(lookup(&table, ctx, held, last) == Lookup::Act(b.action));
        }
    }
}
