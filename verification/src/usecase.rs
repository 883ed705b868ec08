//! The application-facing operations.
//!
//! Each operation wraps the store with the policy the interactive session
//! relies on: deck names are resolved (created when absent), card removal and
//! editing sweep orphan decks, and committing a review appends exactly one
//! log entry and advances the card's due date.

use vstd::pervasive::unreached;
use vstd::prelude::*;

use crate::error::{ReviseError, ReviseResult};
use crate::schedule::arm_for_rating;
use crate::schedule::elapsed_days;
use crate::schedule::elapsed_days_spec;
use crate::schedule::next_show_date;
use crate::schedule::next_show_spec;
use crate::schedule::rating_arm;
use crate::schedule::MemoryState;
use crate::schedule::ScheduleInput;
use crate::schedule::SchedulePreview;
use crate::store::add_card_spec;
use crate::store::add_deck_ok;
use crate::store::add_deck_spec;
use crate::store::add_review_ok;
use crate::store::add_review_spec;
use crate::store::card_index;
use crate::store::card_join;
use crate::store::delete_deck_spec;
use crate::store::has_card;
use crate::store::has_deck;
use crate::store::id_opt_view;
use crate::store::remove_card_spec;
use crate::store::resolve_deck_ok;
use crate::store::resolve_deck_spec;
use crate::store::resolved_deck_id;
use crate::store::reviews_for;
use crate::store::set_suspended_spec;
use crate::store::summaries_of;
use crate::store::sweep_spec;
use crate::store::update_card_spec;
use crate::store::update_details_spec;
use crate::store::Card;
use crate::store::CardSummary;
use crate::store::Deck;
use crate::store::Review;
use crate::store::ReviewV;
use crate::store::Store;
use crate::store::StoreV;
use crate::store::ID;
use crate::utils::now_timestamp;

verus! {

/// Days elapsed for a card at `now`: measured from its last review, or from
/// its creation when it was never reviewed (meaningful only when the card
/// exists).
pub open spec fn card_elapsed_days(s: StoreV, card_id: int, now: int) -> u32 {
    let revs = reviews_for(s.reviews, card_id);
    if revs.len() > 0 {
        elapsed_days_spec(revs.last().review_time, now)
    } else {
        elapsed_days_spec(s.cards[card_index(s.cards, card_id)].created_at, now)
    }
}

/// The scheduling input assembled for a card: the memory state of its last
/// review, if any, and the elapsed days.
pub open spec fn schedule_input_spec(s: StoreV, card_id: int, now: int) -> ScheduleInput {
    let revs = reviews_for(s.reviews, card_id);
    ScheduleInput {
        memory: if revs.len() > 0 {
            Some(
                MemoryState {
                    difficulty: revs.last().difficulty,
                    stability: revs.last().stability,
                },
            )
        } else {
            None
        },
        elapsed_days: card_elapsed_days(s, card_id, now),
    }
}

/// What committing a review with a rating does to the store: one review is
/// appended carrying the chosen arm of the preview and the elapsed days, and
/// the card becomes due again `interval_days` after `now`.
pub open spec fn commit_spec(
    s: StoreV,
    card_id: int,
    rating: u32,
    preview: SchedulePreview,
    now: int,
) -> StoreV {
    let arm = rating_arm(preview, rating);
    let entry = ReviewV {
        id: s.next_review_id,
        card_id,
        interval: arm.interval_days,
        last_interval: card_elapsed_days(s, card_id, now),
        review_time: now,
        stability: arm.memory.stability,
        difficulty: arm.memory.difficulty,
    };
    update_card_spec(add_review_spec(s, entry), card_id, next_show_spec(now, arm.interval_days))
}

/// What editing a card to new authored content does to the store: the target
/// deck is resolved (created when absent), the card is rewritten, and orphan
/// decks are swept.
pub open spec fn edit_card_spec(
    s: StoreV,
    id: int,
    title: Seq<char>,
    deck_name: Seq<char>,
    desc: Seq<char>,
) -> StoreV {
    sweep_spec(
        update_details_spec(
            resolve_deck_spec(s, deck_name),
            id,
            title,
            resolved_deck_id(s, deck_name),
            desc,
        ),
    )
}

/// The application-facing operations over one store.
pub struct Usecase {
    pub store: Store,
    /// The configured editor command, if any; the surrounding program reads
    /// it when it launches the external editor.
    pub editor: Option<String>,
}

impl View for Usecase {
    type V = StoreV;

    closed spec fn view(&self) -> StoreV {
        self.store@
    }
}

impl Usecase {
    pub open spec fn wf(&self) -> bool {
        self@.wf()
    }

    /// An empty collection with no configured editor.
    pub fn new() -> (u: Usecase)
        ensures
            u.wf(),
            u@.decks =~= Seq::<crate::store::DeckV>::empty(),
            u@.cards =~= Seq::<crate::store::CardV>::empty(),
            u@.reviews =~= Seq::<ReviewV>::empty(),
            u@.next_deck_id == 1,
            u@.next_card_id == 1,
            u@.next_review_id == 1,
            u.editor is None,
    {
        Usecase { store: Store::new(), editor: None }
    }

    /// An empty collection with a configured editor command.
    pub fn new_with_editor(editor: Option<String>) -> (u: Usecase)
        ensures
            u.wf(),
            u@.decks =~= Seq::<crate::store::DeckV>::empty(),
            u@.cards =~= Seq::<crate::store::CardV>::empty(),
            u@.reviews =~= Seq::<ReviewV>::empty(),
            u@.next_deck_id == 1,
            u@.next_card_id == 1,
            u@.next_review_id == 1,
            u.editor == editor,
    {
        Usecase { store: Store::new(), editor }
    }

    /// Wraps an existing store, as restored by the surrounding program.
    pub fn from_store(store: Store, editor: Option<String>) -> (u: Usecase)
        requires
            store.wf(),
        ensures
            u.wf(),
            u@ == store@,
            u.editor == editor,
    {
        Usecase { store, editor }
    }

    /// Creates a deck.  Fails when the name is taken or no id can be
    /// allocated.
    pub fn add_deck(&mut self, name: &str) -> (r: ReviseResult<()>)
        requires
            old(self).wf(),
        ensures
            final(self).wf(),
            add_deck_ok(old(self)@, name@) ==> r is Ok && final(self)@ == add_deck_spec(
                old(self)@,
                name@,
            ),
            !add_deck_ok(old(self)@, name@) ==> r == ReviseResult::<()>::Err(
                ReviseError::PersistenceFailure,
            ) && final(self)@ == old(self)@,
    {
        self.store.add_deck(name)
    }

    /// The deck list, in store listing order.
    pub fn list_decks(&self) -> (r: Vec<Deck>)
        ensures
            r.deep_view() == self@.decks,
    {
        match self.store.list_decks() {
            Ok(d) => d,
            Err(_) => unreached(),
        }
    }

    /// Creates a card from authored content: the deck name is resolved,
    /// creating the deck when absent, and the card is added to it, due
    /// immediately.  Fails only when an id can no longer be allocated; a
    /// deck created before such a failure persists, as it would in durable
    /// storage.
    pub fn add_card(&mut self, title: &str, deck_name: &str, desc: &str, now: i64) -> (r:
        ReviseResult<()>)
        requires
            old(self).wf(),
        ensures
            final(self).wf(),
            !resolve_deck_ok(old(self)@, deck_name@) ==> r == ReviseResult::<()>::Err(
                ReviseError::PersistenceFailure,
            ) && final(self)@ == old(self)@,
            resolve_deck_ok(old(self)@, deck_name@) && old(self)@.next_card_id == i64::MAX ==> r
                == ReviseResult::<()>::Err(ReviseError::PersistenceFailure) && final(self)@
                == resolve_deck_spec(old(self)@, deck_name@),
            resolve_deck_ok(old(self)@, deck_name@) && old(self)@.next_card_id < i64::MAX ==> r
                is Ok && final(self)@ == add_card_spec(
                resolve_deck_spec(old(self)@, deck_name@),
                resolved_deck_id(old(self)@, deck_name@),
                title@,
                desc@,
                now as int,
            ),
    {
        let deck_id = match self.store.resolve_deck(deck_name) {
            Ok(id) => id,
            Err(e) => {
                return Err(e);
            },
        };
        match self.store.add_card(deck_id, title, desc, now) {
            Ok(_) => Ok(()),
            Err(e) => Err(e),
        }
    }

    /// The summaries a listing filter selects, evaluated at the given time.
    pub fn list_card_summaries_at(
        &self,
        deck_id: Option<ID>,
        all: bool,
        is_suspended: bool,
        now: i64,
    ) -> (r: Vec<CardSummary>)
        requires
            self.wf(),
        ensures
            r.deep_view() == summaries_of(
                self@.cards,
                self@.decks,
                id_opt_view(deck_id),
                all,
                is_suspended,
                now as int,
            ),
    {
        match self.store.list_card_summaries(deck_id, all, is_suspended, now) {
            Ok(v) => v,
            Err(_) => unreached(),
        }
    }

    /// The summaries a listing filter selects, evaluated at the wall clock.
    /// A suspended listing does not depend on the clock (or on the deck
    /// filter), so its content is exact; the other listings are exact for
    /// whatever instant the clock returned.
    pub fn list_card_summaries(&self, deck_id: Option<ID>, all: bool, is_suspended: bool) -> (r:
        Vec<CardSummary>)
        requires
            self.wf(),
        ensures
            exists|now: int|
                r.deep_view() == summaries_of(
                    self@.cards,
                    self@.decks,
                    id_opt_view(deck_id),
                    all,
                    is_suspended,
                    now,
                ),
            is_suspended ==> r.deep_view() == summaries_of(
                self@.cards,
                self@.decks,
                None,
                false,
                true,
                0,
            ),
    {
        let now = now_timestamp();
        let r = self.list_card_summaries_at(deck_id, all, is_suspended, now);
        proof {
            if is_suspended {
                crate::laws::lemma_suspended_listing_ignores_filters(
                    self@.cards,
                    self@.decks,
                    id_opt_view(deck_id),
                    all,
                    now as int,
                    0,
                );
            }
        }
        r
    }

    /// Rewrites a card from authored content and sweeps orphan decks.
    /// Fails with `NotFound` when the card is absent and with
    /// `PersistenceFailure` when a deck would have to be created and no id
    /// can be allocated; a failure leaves the store unchanged.
    pub fn edit_card(&mut self, id: ID, title: &str, deck_name: &str, desc: &str) -> (r:
        ReviseResult<()>)
        requires
            old(self).wf(),
        ensures
            final(self).wf(),
            !has_card(old(self)@.cards, id as int) ==> r == ReviseResult::<()>::Err(
                ReviseError::NotFound(id),
            ) && final(self)@ == old(self)@,
            has_card(old(self)@.cards, id as int) && !resolve_deck_ok(old(self)@, deck_name@) ==> r
                == ReviseResult::<()>::Err(ReviseError::PersistenceFailure) && final(self)@ == old(self)@,
            has_card(old(self)@.cards, id as int) && resolve_deck_ok(old(self)@, deck_name@) ==> r
                is Ok && final(self)@ == edit_card_spec(
                old(self)@,
                id as int,
                title@,
                deck_name@,
                desc@,
            ),
    {
        match self.store.get_card(id) {
            Ok(_) => {},
            Err(e) => {
                return Err(e);
            },
        }
        let deck_id = match self.store.resolve_deck(deck_name) {
            Ok(d) => d,
            Err(e) => {
                return Err(e);
            },
        };
        match self.store.update_card_details(id, title, deck_id, desc) {
            Ok(_) => {},
            Err(_) => unreached(),
        }
        match self.store.remove_orphan_decks() {
            Ok(_) => {},
            Err(_) => unreached(),
        }
        Ok(())
    }

    /// The card with the given id, joined with its deck name.
    pub fn get_card(&self, id: ID) -> (r: ReviseResult<Card>)
        requires
            self.wf(),
        ensures
            r is Ok <==> has_card(self@.cards, id as int),
            r matches Ok(c) ==> c@ == card_join(
                self@.cards[card_index(self@.cards, id as int)],
                self@.decks,
            ),
            r matches Err(e) ==> e == ReviseError::NotFound(id),
    {
        self.store.get_card(id)
    }

    /// Removes a card (cascading to its reviews) and sweeps orphan decks.
    pub fn remove_card(&mut self, id: ID) -> (r: ReviseResult<()>)
        requires
            old(self).wf(),
        ensures
            final(self).wf(),
            r is Ok,
            final(self)@ == sweep_spec(remove_card_spec(old(self)@, id as int)),
    {
        match self.store.remove_card(id) {
            Ok(_) => {},
            Err(_) => unreached(),
        }
        match self.store.remove_orphan_decks() {
            Ok(_) => {},
            Err(_) => unreached(),
        }
        Ok(())
    }

    /// All reviews of a card, oldest first.
    pub fn get_reviews(&self, id: ID) -> (r: Vec<Review>)
        ensures
            r.deep_view() == reviews_for(self@.reviews, id as int),
    {
        match self.store.get_reviews(id) {
            Ok(v) => v,
            Err(_) => unreached(),
        }
    }

    /// The most recently appended review of a card, if any.
    pub fn get_last_review(&self, card_id: ID) -> (r: Option<Review>)
        ensures
            match r {
                Some(rv) => reviews_for(self@.reviews, card_id as int).len() > 0 && rv@
                    == reviews_for(self@.reviews, card_id as int).last(),
                None => reviews_for(self@.reviews, card_id as int).len() == 0,
            },
    {
        match self.store.get_last_review(card_id) {
            Ok(o) => o,
            Err(_) => unreached(),
        }
    }

    /// Suspends a card, excluding it from due listings.
    pub fn suspend_card(&mut self, id: ID)
        requires
            old(self).wf(),
        ensures
            final(self).wf(),
            final(self)@ == set_suspended_spec(old(self)@, id as int, true),
    {
        match self.store.suspend_card(id) {
            Ok(_) => {},
            Err(_) => unreached(),
        }
    }

    /// Restores a suspended card to its listings.
    pub fn unsuspend_card(&mut self, id: ID)
        requires
            old(self).wf(),
        ensures
            final(self).wf(),
            final(self)@ == set_suspended_spec(old(self)@, id as int, false),
    {
        match self.store.unsuspend_card(id) {
            Ok(_) => {},
            Err(_) => unreached(),
        }
    }

    /// Deletes a deck outright, cascading to its cards and their reviews.
    pub fn delete_deck(&mut self, id: ID) -> (r: ReviseResult<()>)
        requires
            old(self).wf(),
        ensures
            final(self).wf(),
            !has_deck(old(self)@.decks, id as int) ==> r == ReviseResult::<()>::Err(
                ReviseError::NotFound(id),
            ) && final(self)@ == old(self)@,
            has_deck(old(self)@.decks, id as int) ==> r is Ok && final(self)@ == delete_deck_spec(
                old(self)@,
                id as int,
            ),
    {
        self.store.delete_deck(id)
    }

    /// Assembles what the memory-model computation needs for a card at
    /// `now`.  Fails with `NotFound` when the card is absent.
    pub fn schedule_input(&self, card_id: ID, now: i64) -> (r: ReviseResult<ScheduleInput>)
        requires
            self.wf(),
        ensures
            r is Ok <==> has_card(self@.cards, card_id as int),
            r matches Ok(inp) ==> inp == schedule_input_spec(self@, card_id as int, now as int),
            r matches Err(e) ==> e == ReviseError::NotFound(card_id),
    {
        let card = match self.store.get_card(card_id) {
            Ok(c) => c,
            Err(e) => {
                return Err(e);
            },
        };
        let last = match self.store.get_last_review(card_id) {
            Ok(o) => o,
            Err(_) => unreached(),
        };
        match last {
            Some(lr) => Ok(
                ScheduleInput {
                    memory: Some(
                        MemoryState { difficulty: lr.difficulty, stability: lr.stability },
                    ),
                    elapsed_days: elapsed_days(lr.review_time, now),
                },
            ),
            None => Ok(
                ScheduleInput {
                    memory: None,
                    elapsed_days: elapsed_days(card.created_at, now),
                },
            ),
        }
    }

    /// Commits a review: rating `n` (1 = again, 2 = hard, 3 = good,
    /// 4 = easy) selects an arm of the preview, one review log entry is
    /// appended, and the card's due date advances by the arm's interval.  A
    /// rating outside `1..=4` is rejected as `InvalidRating` before any
    /// mutation; a missing card is `NotFound`.
    pub fn revise_card(&mut self, card_id: ID, n: usize, preview: &SchedulePreview, now: i64) -> (r:
        ReviseResult<()>)
        requires
            old(self).wf(),
        ensures
            final(self).wf(),
            (n < 1 || n > 4) ==> r == ReviseResult::<()>::Err(ReviseError::InvalidRating) && final(self)@ == old(self)@,
            1 <= n <= 4 && !has_card(old(self)@.cards, card_id as int) ==> r
                == ReviseResult::<()>::Err(ReviseError::NotFound(card_id)) && final(self)@ == old(self)@,
            1 <= n <= 4 && has_card(old(self)@.cards, card_id as int) && old(self)@.next_review_id
                == i64::MAX ==> r == ReviseResult::<()>::Err(ReviseError::PersistenceFailure)
                && final(self)@ == old(self)@,
            1 <= n <= 4 && has_card(old(self)@.cards, card_id as int) && old(self)@.next_review_id
                < i64::MAX ==> r is Ok && final(self)@ == commit_spec(
                old(self)@,
                card_id as int,
                n as u32,
                *preview,
                now as int,
            ),
    {
        if n < 1 || n > 4 {
            return Err(ReviseError::InvalidRating);
        }
        let card = match self.store.get_card(card_id) {
            Ok(c) => c,
            Err(e) => {
                return Err(e);
            },
        };
        let last = match self.store.get_last_review(card_id) {
            Ok(o) => o,
            Err(_) => unreached(),
        };
        let elapsed = match &last {
            Some(lr) => elapsed_days(lr.review_time, now),
            None => elapsed_days(card.created_at, now),
        };
        proof {
            assert(elapsed == card_elapsed_days(self@, card_id as int, now as int));
        }
        let arm = arm_for_rating(preview, n as u32);
        let review = Review {
            id: 0,
            card_id,
            interval: arm.interval_days,
            last_interval: elapsed,
            review_time: now,
            stability: arm.memory.stability,
            difficulty: arm.memory.difficulty,
        };
        match self.store.add_review(review) {
            Ok(_) => {},
            Err(e) => {
                return Err(e);
            },
        }
        let nsd = next_show_date(now, arm.interval_days);
        match self.store.update_card(card_id, nsd) {
            Ok(_) => {},
            Err(_) => unreached(),
        }
        proof {
            let arm_g = rating_arm(*preview, n as u32);
            let entry = ReviewV {
                id: old(self)@.next_review_id,
                card_id: card_id as int,
                interval: arm_g.interval_days,
                last_interval: card_elapsed_days(old(self)@, card_id as int, now as int),
                review_time: now as int,
                stability: arm_g.memory.stability,
                difficulty: arm_g.memory.difficulty,
            };
            assert(has_card(old(self)@.cards, card_id as int));
            assert(add_review_ok(old(self)@, card_id as int));
            assert(self.store@ == update_card_spec(
                add_review_spec(old(self)@, review@),
                card_id as int,
                nsd as int,
            ));
            assert(ReviewV { id: old(self)@.next_review_id, ..review@ } == entry);
            assert(add_review_spec(old(self)@, review@).reviews =~= add_review_spec(
                old(self)@,
                entry,
            ).reviews);
            assert(add_review_spec(old(self)@, review@) == add_review_spec(old(self)@, entry));
            assert(nsd as int == next_show_spec(now as int, arm_g.interval_days));
            assert(self@ == commit_spec(old(self)@, card_id as int, n as u32, *preview, now as int));
        }
        Ok(())
    }
}

} // verus!
