use revise::error::ReviseError;
use revise::schedule::{get_next_dates, MemoryState, ScheduleArm, SchedulePreview};
use revise::store::{CardRecord, Deck, Review, Store};
use revise::usecase::Usecase;

const DAY: i64 = 86400;

fn preview_sample() -> SchedulePreview {
    SchedulePreview {
        again: ScheduleArm {
            memory: MemoryState { difficulty: 91, stability: 11 },
            interval_days: 1,
        },
        hard: ScheduleArm {
            memory: MemoryState { difficulty: 72, stability: 22 },
            interval_days: 3,
        },
        good: ScheduleArm {
            memory: MemoryState { difficulty: 53, stability: 33 },
            interval_days: 7,
        },
        easy: ScheduleArm {
            memory: MemoryState { difficulty: 34, stability: 44 },
            interval_days: 15,
        },
    }
}

#[test]
fn add_deck_and_list() {
    let mut u = Usecase::new();
    u.add_deck("alpha").unwrap();
    u.add_deck("beta").unwrap();
    let decks = u.list_decks();
    assert_eq!(decks.len(), 2);
    assert_eq!(decks[0].name, "alpha");
    assert_eq!(decks[1].name, "beta");
    assert_ne!(decks[0].id, decks[1].id);
}

#[test]
fn duplicate_deck_name_is_refused() {
    let mut u = Usecase::new();
    u.add_deck("alpha").unwrap();
    assert_eq!(u.add_deck("alpha"), Err(ReviseError::PersistenceFailure));
    assert_eq!(u.list_decks().len(), 1);
}

#[test]
fn add_card_creates_missing_deck() {
    let mut u = Usecase::new();
    u.add_card("What is rust?", "langs", "body", 100).unwrap();
    let decks = u.list_decks();
    assert_eq!(decks.len(), 1);
    assert_eq!(decks[0].name, "langs");
    let all = u.list_card_summaries_at(None, true, false, 100);
    assert_eq!(all.len(), 1);
    assert_eq!(all[0].title, "What is rust?");
    assert_eq!(all[0].deck, "langs");
    assert_eq!(all[0].next_show_date, 100);
    assert_eq!(all[0].created_at, 100);
}

#[test]
fn get_card_not_found() {
    let u = Usecase::new();
    assert!(matches!(u.get_card(5), Err(ReviseError::NotFound(5))));
}

#[test]
fn edit_card_moves_deck_and_sweeps_orphans() {
    let mut u = Usecase::new();
    u.add_card("t", "old_deck", "d", 10).unwrap();
    let id = u.list_card_summaries_at(None, true, false, 10)[0].id;
    u.edit_card(id, "t2", "new_deck", "d2").unwrap();
    let decks = u.list_decks();
    assert_eq!(decks.len(), 1);
    assert_eq!(decks[0].name, "new_deck");
    let card = u.get_card(id).unwrap();
    assert_eq!(card.title, "t2");
    assert_eq!(card.desc, "d2");
    assert_eq!(card.deck, "new_deck");
}

#[test]
fn edit_card_not_found() {
    let mut u = Usecase::new();
    assert!(matches!(u.edit_card(9, "t", "d", "x"), Err(ReviseError::NotFound(9))));
}

#[test]
fn due_listing_is_exactly_the_due_cards() {
    let mut u = Usecase::new();
    u.add_card("early", "deck", "a", 100).unwrap();
    u.add_card("late", "deck", "b", 200).unwrap();
    let due = u.list_card_summaries_at(None, false, false, 150);
    assert_eq!(due.len(), 1);
    assert_eq!(due[0].title, "early");
    let due_all = u.list_card_summaries_at(None, false, false, 200);
    assert_eq!(due_all.len(), 2);
}

#[test]
fn suspended_listing_ignores_deck_and_all() {
    let mut u = Usecase::new();
    u.add_card("a", "one", "x", 10).unwrap();
    u.add_card("b", "two", "y", 10).unwrap();
    let summaries = u.list_card_summaries_at(None, true, false, 10);
    let b_id = summaries.iter().find(|s| s.title == "b").unwrap().id;
    u.suspend_card(b_id);
    let deck_one = u.list_decks()[0].id;
    for (deck_id, all) in [(None, false), (None, true), (Some(deck_one), false), (Some(deck_one), true)] {
        let sus = u.list_card_summaries_at(deck_id, all, true, 10);
        assert_eq!(sus.len(), 1);
        assert_eq!(sus[0].title, "b");
    }
    let due = u.list_card_summaries_at(None, false, false, 10);
    assert_eq!(due.len(), 1);
    assert_eq!(due[0].title, "a");
    u.unsuspend_card(b_id);
    assert_eq!(u.list_card_summaries_at(None, true, true, 10).len(), 0);
    assert_eq!(u.list_card_summaries_at(None, false, false, 10).len(), 2);
}

#[test]
fn commit_appends_the_chosen_arm() {
    let preview = preview_sample();
    let labels = get_next_dates(&preview);
    assert_eq!(labels.len(), 4);
    assert_eq!(labels[0], ("again".to_string(), 1));
    assert_eq!(labels[1], ("hard".to_string(), 3));
    assert_eq!(labels[2], ("good".to_string(), 7));
    assert_eq!(labels[3], ("easy".to_string(), 15));
    for n in 1..=4usize {
        let mut u = Usecase::new();
        u.add_card("t", "d", "x", 1000).unwrap();
        let id = u.list_card_summaries_at(None, true, false, 1000)[0].id;
        u.revise_card(id, n, &preview, 2000).unwrap();
        let reviews = u.get_reviews(id);
        assert_eq!(reviews.len(), 1);
        let r = &reviews[0];
        assert_eq!(r.interval, labels[n - 1].1);
        assert_eq!(r.review_time, 2000);
        let card = u.get_card(id).unwrap();
        assert_eq!(card.next_show_date, 2000 + (labels[n - 1].1 as i64) * DAY);
    }
}

#[test]
fn new_card_reviewed_good_at_creation_time() {
    let preview = preview_sample();
    let mut u = Usecase::new();
    u.add_card("fresh", "deck", "body", 5000).unwrap();
    let id = u.list_card_summaries_at(None, true, false, 5000)[0].id;
    u.revise_card(id, 3, &preview, 5000).unwrap();
    let reviews = u.get_reviews(id);
    assert_eq!(reviews.len(), 1);
    assert_eq!(reviews[0].last_interval, 0);
    assert_eq!(reviews[0].interval, 7);
    assert_eq!(reviews[0].stability, 33);
    assert_eq!(reviews[0].difficulty, 53);
    let card = u.get_card(id).unwrap();
    assert_eq!(card.next_show_date, 5000 + 7 * DAY);
}

#[test]
fn review_log_is_ordered_and_last_review_is_latest() {
    let preview = preview_sample();
    let mut u = Usecase::new();
    u.add_card("t", "d", "x", 0).unwrap();
    let id = u.list_card_summaries_at(None, true, false, 0)[0].id;
    u.revise_card(id, 1, &preview, 10 * DAY).unwrap();
    u.revise_card(id, 4, &preview, 25 * DAY).unwrap();
    let reviews = u.get_reviews(id);
    assert_eq!(reviews.len(), 2);
    assert!(reviews[0].review_time <= reviews[1].review_time);
    assert_eq!(reviews[0].interval, 1);
    assert_eq!(reviews[1].interval, 15);
    assert_eq!(reviews[0].last_interval, 10);
    assert_eq!(reviews[1].last_interval, 15);
    let last = u.get_last_review(id).unwrap();
    assert_eq!(last.id, reviews[1].id);
    assert_eq!(last.interval, 15);
}

#[test]
fn invalid_rating_is_rejected_before_mutation() {
    let preview = preview_sample();
    let mut u = Usecase::new();
    u.add_card("t", "d", "x", 0).unwrap();
    let id = u.list_card_summaries_at(None, true, false, 0)[0].id;
    assert_eq!(u.revise_card(id, 0, &preview, 5), Err(ReviseError::InvalidRating));
    assert_eq!(u.revise_card(id, 5, &preview, 5), Err(ReviseError::InvalidRating));
    assert_eq!(u.get_reviews(id).len(), 0);
    assert!(matches!(u.revise_card(999, 2, &preview, 5), Err(ReviseError::NotFound(999))));
}

#[test]
fn orphan_sweep_removes_exactly_unused_decks() {
    let mut u = Usecase::new();
    u.add_deck("empty").unwrap();
    u.add_card("t", "used", "x", 0).unwrap();
    assert_eq!(u.list_decks().len(), 2);
    u.store.remove_orphan_decks().unwrap();
    let decks = u.list_decks();
    assert_eq!(decks.len(), 1);
    assert_eq!(decks[0].name, "used");
    u.store.remove_orphan_decks().unwrap();
    let again = u.list_decks();
    assert_eq!(again.len(), 1);
    assert_eq!(again[0].name, "used");
}

#[test]
fn deleting_last_card_sweeps_its_deck() {
    let mut u = Usecase::new();
    u.add_card("only", "lonely", "x", 0).unwrap();
    let id = u.list_card_summaries_at(None, true, false, 0)[0].id;
    u.remove_card(id).unwrap();
    assert_eq!(u.list_decks().len(), 0);
    assert_eq!(u.list_card_summaries_at(None, true, false, 0).len(), 0);
}

#[test]
fn delete_deck_cascades_to_cards_and_reviews() {
    let preview = preview_sample();
    let mut u = Usecase::new();
    u.add_card("a", "gone", "x", 0).unwrap();
    u.add_card("b", "kept", "y", 0).unwrap();
    let a_id = u.list_card_summaries_at(None, true, false, 0)[0].id;
    u.revise_card(a_id, 2, &preview, 1).unwrap();
    let gone_id = u.list_decks().iter().find(|d| d.name == "gone").unwrap().id;
    u.delete_deck(gone_id).unwrap();
    let decks = u.list_decks();
    assert_eq!(decks.len(), 1);
    assert_eq!(decks[0].name, "kept");
    assert!(matches!(u.get_card(a_id), Err(ReviseError::NotFound(_))));
    assert_eq!(u.get_reviews(a_id).len(), 0);
    assert!(matches!(u.delete_deck(gone_id), Err(ReviseError::NotFound(_))));
}

#[test]
fn load_adopts_consistent_tables() {
    let decks = vec![Deck { id: 7, name: "d".to_string() }];
    let cards = vec![CardRecord {
        id: 3,
        deck_id: 7,
        title: "t".to_string(),
        desc: "x".to_string(),
        next_show_date: 50,
        created_at: 40,
        suspended: false,
    }];
    let reviews = vec![Review {
        id: 1,
        card_id: 3,
        interval: 2,
        last_interval: 0,
        review_time: 45,
        stability: 10,
        difficulty: 20,
    }];
    let store = Store::load(decks, cards, reviews).unwrap();
    let u = Usecase::from_store(store, None);
    assert_eq!(u.list_decks()[0].id, 7);
    assert_eq!(u.get_card(3).unwrap().title, "t");
    assert_eq!(u.get_reviews(3).len(), 1);
}

#[test]
fn load_refuses_inconsistent_tables() {
    let deck = |id: i64, name: &str| Deck { id, name: name.to_string() };
    let card = |id: i64, deck_id: i64| CardRecord {
        id,
        deck_id,
        title: "t".to_string(),
        desc: "x".to_string(),
        next_show_date: 0,
        created_at: 0,
        suspended: false,
    };
    let review = |id: i64, card_id: i64| Review {
        id,
        card_id,
        interval: 1,
        last_interval: 0,
        review_time: 0,
        stability: 0,
        difficulty: 0,
    };
    assert!(Store::load(vec![deck(1, "a"), deck(1, "b")], vec![], vec![]).is_err());
    assert!(Store::load(vec![deck(1, "a"), deck(2, "a")], vec![], vec![]).is_err());
    assert!(Store::load(vec![deck(1, "a")], vec![card(1, 9)], vec![]).is_err());
    assert!(Store::load(vec![deck(1, "a")], vec![card(1, 1), card(1, 1)], vec![]).is_err());
    assert!(Store::load(vec![deck(1, "a")], vec![card(1, 1)], vec![review(5, 1), review(5, 1)])
        .is_err());
    assert!(Store::load(vec![deck(1, "a")], vec![card(1, 1)], vec![review(1, 8)]).is_err());
}

#[test]
fn wall_clock_suspended_listing_matches_the_exact_one() {
    let mut u = Usecase::new();
    u.add_card("a", "one", "x", 10).unwrap();
    let id = u.list_card_summaries_at(None, true, false, 10)[0].id;
    u.suspend_card(id);
    let via_clock = u.list_card_summaries(Some(999), true, true);
    let exact = u.list_card_summaries_at(None, false, true, 0);
    assert_eq!(via_clock.len(), 1);
    assert_eq!(via_clock[0].id, exact[0].id);
    assert_eq!(via_clock[0].title, "a");
}
