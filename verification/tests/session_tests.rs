use revise::schedule::{MemoryState, ScheduleArm, SchedulePreview};
use revise::session::{AppState, Focused, Key, Mode, UiRequest};
use revise::usecase::Usecase;

const NOW: i64 = 1_000_000;

fn preview_sample() -> SchedulePreview {
    SchedulePreview {
        again: ScheduleArm {
            memory: MemoryState { difficulty: 1, stability: 2 },
            interval_days: 1,
        },
        hard: ScheduleArm {
            memory: MemoryState { difficulty: 3, stability: 4 },
            interval_days: 2,
        },
        good: ScheduleArm {
            memory: MemoryState { difficulty: 5, stability: 6 },
            interval_days: 4,
        },
        easy: ScheduleArm {
            memory: MemoryState { difficulty: 7, stability: 8 },
            interval_days: 9,
        },
    }
}

fn session_with(titles: &[(&str, &str)]) -> (AppState, Usecase) {
    let mut u = Usecase::new();
    for (title, deck) in titles {
        u.add_card(title, deck, "body", NOW).unwrap();
    }
    let mut state = AppState::default();
    state.refresh(&u, NOW);
    (state, u)
}

#[test]
fn initial_state_shows_due_cards() {
    let (state, _u) = session_with(&[("a", "d1"), ("b", "d2")]);
    assert_eq!(state.focused, Focused::Cards);
    assert_eq!(state.mode, Mode::Normal);
    assert_eq!(state.selected_deck_slot, 0);
    assert_eq!(state.cards.len(), 2);
    assert!(state.card_info.is_some());
}

#[test]
fn search_filters_case_sensitively_and_reclamps_selection() {
    let mut titles: Vec<(String, String)> = Vec::new();
    for i in 0..8 {
        titles.push((format!("card {}", i), "deck".to_string()));
    }
    titles.push(("foo fighter".to_string(), "deck".to_string()));
    titles.push(("real foo".to_string(), "deck".to_string()));
    let mut u = Usecase::new();
    for (t, d) in &titles {
        u.add_card(t, d, "body", NOW).unwrap();
    }
    // one more that must NOT match: capital F
    u.add_card("Foo loud", "deck", "body", NOW).unwrap();
    let mut state = AppState::default();
    state.refresh(&u, NOW);
    assert_eq!(state.cards.len(), 11);

    // move the selection down to row 5, then search for "foo"
    for _ in 0..5 {
        state.handle_key_event(&mut u, Key::Char('j'), NOW);
    }
    assert_eq!(state.selected_card_row, 5);
    state.handle_key_event(&mut u, Key::Char('/'), NOW);
    assert_eq!(state.mode, Mode::Searching);
    for c in ['f', 'o', 'o'] {
        state.handle_key_event(&mut u, Key::Char(c), NOW);
    }
    let visible = state.visible_cards();
    assert_eq!(visible.len(), 2);
    assert_eq!(visible[0].title, "foo fighter");
    assert_eq!(visible[1].title, "real foo");
    assert_eq!(state.selected_card_row, 1);

    // leaving search keeps the buffer filtering
    state.handle_key_event(&mut u, Key::Enter, NOW);
    assert_eq!(state.mode, Mode::Normal);
    assert_eq!(state.search_buffer, "foo");
    assert_eq!(state.visible_cards().len(), 2);

    // backspace in search narrows the filter back out
    state.handle_key_event(&mut u, Key::Char('/'), NOW);
    for _ in 0..3 {
        state.handle_key_event(&mut u, Key::Backspace, NOW);
    }
    assert_eq!(state.search_buffer, "");
    assert_eq!(state.visible_cards().len(), 11);
}

#[test]
fn digit_quick_filter_maps_to_deck_slots() {
    let (mut state, mut u) = session_with(&[("a", "alpha"), ("b", "beta")]);
    state.handle_key_event(&mut u, Key::Char('2'), NOW);
    assert_eq!(state.selected_deck_slot, 4);
    assert_eq!(state.cards.len(), 1);
    assert_eq!(state.cards[0].deck, "beta");
    state.handle_key_event(&mut u, Key::Char('1'), NOW);
    assert_eq!(state.selected_deck_slot, 3);
    assert_eq!(state.cards[0].deck, "alpha");
    // out-of-range digit is a no-op
    state.handle_key_event(&mut u, Key::Char('9'), NOW);
    assert_eq!(state.selected_deck_slot, 3);
}

#[test]
fn sidebar_navigation_clamps_at_both_ends() {
    let (mut state, mut u) = session_with(&[("a", "alpha")]);
    state.handle_key_event(&mut u, Key::Tab, NOW);
    assert_eq!(state.focused, Focused::Sidebar);
    state.handle_key_event(&mut u, Key::Char('k'), NOW);
    assert_eq!(state.selected_deck_slot, 0);
    for _ in 0..10 {
        state.handle_key_event(&mut u, Key::Char('j'), NOW);
    }
    // one deck: the last slot is 3
    assert_eq!(state.selected_deck_slot, 3);
    state.handle_key_event(&mut u, Key::Tab, NOW);
    assert_eq!(state.focused, Focused::Cards);
}

#[test]
fn deck_deletion_requires_confirmation() {
    let (mut state, mut u) = session_with(&[("a", "alpha"), ("b", "beta")]);
    state.handle_key_event(&mut u, Key::Tab, NOW);
    state.handle_key_event(&mut u, Key::Char('j'), NOW);
    state.handle_key_event(&mut u, Key::Char('j'), NOW);
    state.handle_key_event(&mut u, Key::Char('j'), NOW);
    assert_eq!(state.selected_deck_slot, 3);
    state.handle_key_event(&mut u, Key::Char('d'), NOW);
    assert!(matches!(state.mode, Mode::ConfirmingDelete(_)));
    // anything but `y` cancels without mutation
    state.handle_key_event(&mut u, Key::Char('n'), NOW);
    assert_eq!(state.mode, Mode::Normal);
    assert_eq!(u.list_decks().len(), 2);
    // confirm for real
    state.handle_key_event(&mut u, Key::Char('d'), NOW);
    state.handle_key_event(&mut u, Key::Char('y'), NOW);
    assert_eq!(state.mode, Mode::Normal);
    assert_eq!(state.selected_deck_slot, 0);
    let decks = u.list_decks();
    assert_eq!(decks.len(), 1);
    assert_eq!(decks[0].name, "beta");
}

#[test]
fn review_round_trip_commits_the_rated_arm() {
    let (mut state, mut u) = session_with(&[("a", "alpha")]);
    let req = state.handle_key_event(&mut u, Key::Char('r'), NOW);
    let (card_id, input) = match req {
        Some(UiRequest::Schedule { card_id, input }) => (card_id, input),
        _ => panic!("expected a schedule request"),
    };
    assert!(input.memory.is_none());
    assert_eq!(input.elapsed_days, 0);
    let preview = preview_sample();
    state.enter_revising(card_id, preview);
    assert!(matches!(state.mode, Mode::Revising(_)));
    // an unrelated key is ignored
    state.handle_key_event(&mut u, Key::Char('x'), NOW);
    assert!(matches!(state.mode, Mode::Revising(_)));
    state.handle_key_event(&mut u, Key::Char('2'), NOW);
    assert_eq!(state.mode, Mode::Normal);
    let reviews = u.get_reviews(card_id);
    assert_eq!(reviews.len(), 1);
    assert_eq!(reviews[0].interval, 2);
    assert_eq!(reviews[0].stability, 4);
    assert_eq!(reviews[0].difficulty, 3);
    // the card is no longer due, so the due list is empty
    assert_eq!(state.cards.len(), 0);
}

#[test]
fn escape_cancels_review_without_committing() {
    let (mut state, mut u) = session_with(&[("a", "alpha")]);
    let card_id = state.cards[0].id;
    state.enter_revising(card_id, preview_sample());
    state.handle_key_event(&mut u, Key::Esc, NOW);
    assert_eq!(state.mode, Mode::Normal);
    assert_eq!(u.get_reviews(card_id).len(), 0);
    assert_eq!(state.cards.len(), 1);
}

#[test]
fn add_and_edit_requests_carry_context() {
    let (mut state, mut u) = session_with(&[("a", "alpha")]);
    let req = state.handle_key_event(&mut u, Key::Char('a'), NOW);
    match req {
        Some(UiRequest::AddCard { prefill_deck }) => assert!(prefill_deck.is_none()),
        _ => panic!("expected an authoring request"),
    }
    // on a deck slot the deck name is pre-filled
    state.handle_key_event(&mut u, Key::Char('1'), NOW);
    let req = state.handle_key_event(&mut u, Key::Char('a'), NOW);
    match req {
        Some(UiRequest::AddCard { prefill_deck }) => {
            assert_eq!(prefill_deck, Some("alpha".to_string()))
        },
        _ => panic!("expected an authoring request"),
    }
    let id = state.cards[0].id;
    let req = state.handle_key_event(&mut u, Key::Char('e'), NOW);
    match req {
        Some(UiRequest::EditCard { id: edit_id }) => assert_eq!(edit_id, id),
        _ => panic!("expected an edit request"),
    }
}

#[test]
fn suspend_key_toggles_by_slot() {
    let (mut state, mut u) = session_with(&[("a", "alpha")]);
    let id = state.cards[0].id;
    state.handle_key_event(&mut u, Key::Char('s'), NOW);
    assert_eq!(state.cards.len(), 0);
    assert_eq!(u.list_card_summaries_at(None, true, true, NOW).len(), 1);
    // move to the suspended slot and unsuspend there
    state.handle_key_event(&mut u, Key::Tab, NOW);
    state.handle_key_event(&mut u, Key::Char('j'), NOW);
    assert_eq!(state.selected_deck_slot, 1);
    assert_eq!(state.cards.len(), 1);
    state.handle_key_event(&mut u, Key::Tab, NOW);
    state.handle_key_event(&mut u, Key::Char('s'), NOW);
    assert_eq!(u.list_card_summaries_at(None, true, true, NOW).len(), 0);
    assert_eq!(u.get_card(id).unwrap().title, "a");
}

#[test]
fn card_deletion_refreshes_decks_and_cards() {
    let (mut state, mut u) = session_with(&[("a", "alpha"), ("b", "beta")]);
    assert_eq!(state.cards.len(), 2);
    state.handle_key_event(&mut u, Key::Char('d'), NOW);
    assert_eq!(state.cards.len(), 1);
    assert_eq!(state.decks.len(), 1);
    assert_eq!(u.list_decks().len(), 1);
}

#[test]
fn detail_panel_follows_the_selection() {
    let (mut state, mut u) = session_with(&[("a", "alpha"), ("b", "beta")]);
    state.handle_key_event(&mut u, Key::Char('j'), NOW);
    let info = state.card_info.as_ref().unwrap();
    assert_eq!(info.card.title, state.cards[1].title);
    assert_eq!(info.reviews.len(), 0);
}
