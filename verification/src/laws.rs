//! Global properties of the library, stated and proved over the same spec
//! functions that the executable contracts use.

use vstd::prelude::*;

use crate::schedule::rating_arm;
use crate::schedule::next_show_spec;
use crate::schedule::SchedulePreview;
use crate::session::slot_summaries;
use crate::store::card_index;
use crate::store::deck_used;
use crate::store::has_card;
use crate::store::lemma_card_index;
use crate::store::lemma_live_decks;
use crate::store::live_decks;
use crate::store::summaries_of;
use crate::store::summary_of;
use crate::store::summary_selected;
use crate::store::sweep_spec;
use crate::store::CardV;
use crate::store::DeckV;
use crate::store::ReviewV;
use crate::store::StoreV;
use crate::store::reviews_for;
use crate::usecase::card_elapsed_days;
use crate::usecase::commit_spec;

verus! {

/// Committing a review with rating `1..=4` appends exactly one log entry to
/// the review log; the entry carries the interval, stability and difficulty
/// of the arm of the preview that the rating selects, its review time is the
/// commit time and its elapsed days are measured as the preview's were; and
/// the reviewed card — alone — becomes due again `interval` days after the
/// review time.
pub proof fn lemma_commit_appends_chosen_arm(
    s: StoreV,
    card_id: int,
    rating: u32,
    preview: SchedulePreview,
    now: int,
)
    requires
        s.wf(),
        1 <= rating <= 4,
        has_card(s.cards, card_id),
    ensures
        ({
            let t = commit_spec(s, card_id, rating, preview, now);
            let arm = rating_arm(preview, rating);
            &&& t.reviews.len() == s.reviews.len() + 1
            &&& t.reviews.drop_last() == s.reviews
            &&& t.reviews.last().card_id == card_id
            &&& t.reviews.last().interval == arm.interval_days
            &&& t.reviews.last().stability == arm.memory.stability
            &&& t.reviews.last().difficulty == arm.memory.difficulty
            &&& t.reviews.last().review_time == now
            &&& t.reviews.last().last_interval == card_elapsed_days(s, card_id, now)
            &&& t.cards.len() == s.cards.len()
            &&& t.cards[card_index(s.cards, card_id)].next_show_date == next_show_spec(
                now,
                arm.interval_days,
            )
            &&& forall|k: int|
                0 <= k < s.cards.len() && (#[trigger] s.cards[k]).id != card_id ==> t.cards[k]
                    == s.cards[k]
            &&& t.decks == s.decks
        }),
{
    let t = commit_spec(s, card_id, rating, preview, now);
    lemma_card_index(s.cards, card_id);
    assert(t.reviews.drop_last() =~= s.reviews);
    let ci = card_index(s.cards, card_id);
    assert(s.cards[ci].id == card_id);
}

/// Appending a review extends exactly the log of its own card: the filtered
/// log of that card grows by the new entry at its end (so the most recently
/// appended entry is the last one), and every other card's log is untouched.
pub proof fn lemma_reviews_for_push(reviews: Seq<ReviewV>, r: ReviewV, card_id: int)
    ensures
        r.card_id == card_id ==> reviews_for(reviews.push(r), card_id) == reviews_for(
            reviews,
            card_id,
        ).push(r),
        r.card_id != card_id ==> reviews_for(reviews.push(r), card_id) == reviews_for(
            reviews,
            card_id,
        ),
{
    assert(reviews.push(r).drop_last() =~= reviews);
}

/// The review log of a card, ordered oldest first.
pub open spec fn times_monotone(revs: Seq<ReviewV>) -> bool {
    forall|i: int, j: int|
        0 <= i < j < revs.len() ==> (#[trigger] revs[i]).review_time <= (
        #[trigger] revs[j]).review_time
}

/// A card's review log stays monotonically increasing in review time under a
/// commit, provided the commit happens no earlier than every logged review —
/// the one assumption a forward-moving clock supplies.
pub proof fn lemma_commit_keeps_times_monotone(
    s: StoreV,
    card_id: int,
    rating: u32,
    preview: SchedulePreview,
    now: int,
    other: int,
)
    requires
        s.wf(),
        1 <= rating <= 4,
        has_card(s.cards, card_id),
        times_monotone(reviews_for(s.reviews, other)),
        forall|i: int|
            0 <= i < reviews_for(s.reviews, other).len() ==> (#[trigger] reviews_for(
                s.reviews,
                other,
            )[i]).review_time <= now,
    ensures
        times_monotone(reviews_for(commit_spec(s, card_id, rating, preview, now).reviews, other)),
{
    let t = commit_spec(s, card_id, rating, preview, now);
    let entry = t.reviews.last();
    assert(t.reviews =~= s.reviews.push(entry));
    lemma_reviews_for_push(s.reviews, entry, other);
}

/// Every summary of the due listing — no deck filter, `all` and
/// `is_suspended` off — is the projection of a non-suspended card that is
/// due at `now`, and every such card appears in it: the listing holds
/// exactly the due cards, independent of deck.
pub proof fn lemma_due_listing_exact(cards: Seq<CardV>, decks: Seq<DeckV>, now: int)
    ensures
        listing_from_selected(cards, decks, None, false, false, now),
        selected_listed(cards, decks, None, false, false, now),
        forall|i: int|
            0 <= i < cards.len() ==> (summary_selected(#[trigger] cards[i], None, false, false, now)
                <==> (!cards[i].suspended && cards[i].next_show_date <= now)),
{
    lemma_summaries_membership(cards, decks, None, false, false, now);
}

/// Each summary of a listing is the projection of some selected card.
pub open spec fn listing_from_selected(
    cards: Seq<CardV>,
    decks: Seq<DeckV>,
    deck_id: Option<int>,
    all: bool,
    is_suspended: bool,
    now: int,
) -> bool {
    forall|k: int|
        #![trigger summaries_of(cards, decks, deck_id, all, is_suspended, now)[k]]
        0 <= k < summaries_of(cards, decks, deck_id, all, is_suspended, now).len() ==> exists|
            i: int,
        |
            0 <= i < cards.len() && summary_selected(
                #[trigger] cards[i],
                deck_id,
                all,
                is_suspended,
                now,
            ) && summaries_of(cards, decks, deck_id, all, is_suspended, now)[k] == summary_of(
                cards[i],
                decks,
            )
}

/// Each selected card appears in the listing.
pub open spec fn selected_listed(
    cards: Seq<CardV>,
    decks: Seq<DeckV>,
    deck_id: Option<int>,
    all: bool,
    is_suspended: bool,
    now: int,
) -> bool {
    forall|i: int|
        0 <= i < cards.len() && summary_selected(
            #[trigger] cards[i],
            deck_id,
            all,
            is_suspended,
            now,
        ) ==> summaries_of(cards, decks, deck_id, all, is_suspended, now).contains(
            summary_of(cards[i], decks),
        )
}

/// Membership of a listing, both ways: each summary comes from a selected
/// card, and each selected card is listed.
pub proof fn lemma_summaries_membership(
    cards: Seq<CardV>,
    decks: Seq<DeckV>,
    deck_id: Option<int>,
    all: bool,
    is_suspended: bool,
    now: int,
)
    ensures
        summaries_of(cards, decks, deck_id, all, is_suspended, now).len() <= cards.len(),
        listing_from_selected(cards, decks, deck_id, all, is_suspended, now),
        selected_listed(cards, decks, deck_id, all, is_suspended, now),
    decreases cards.len(),
{
    if cards.len() > 0 {
        lemma_summaries_membership(cards.drop_last(), decks, deck_id, all, is_suspended, now);
        assert(forall|k: int| 0 <= k < cards.len() - 1 ==> cards[k] == cards.drop_last()[k]);
        assert forall|k: int|
            #![trigger summaries_of(cards, decks, deck_id, all, is_suspended, now)[k]]
            0 <= k < summaries_of(cards, decks, deck_id, all, is_suspended, now).len() implies exists|
            i: int,
        |
            0 <= i < cards.len() && summary_selected(
                #[trigger] cards[i],
                deck_id,
                all,
                is_suspended,
                now,
            ) && summaries_of(cards, decks, deck_id, all, is_suspended, now)[k] == summary_of(
                cards[i],
                decks,
            ) by {
            let rest = summaries_of(cards.drop_last(), decks, deck_id, all, is_suspended, now);
            if k < rest.len() {
                assert(summaries_of(cards.drop_last(), decks, deck_id, all, is_suspended, now)[k]
                    == rest[k]);
                let i = choose|i: int|
                    0 <= i < cards.drop_last().len() && summary_selected(
                        #[trigger] cards.drop_last()[i],
                        deck_id,
                        all,
                        is_suspended,
                        now,
                    ) && summaries_of(cards.drop_last(), decks, deck_id, all, is_suspended, now)[k]
                        == summary_of(cards.drop_last()[i], decks);
                assert(cards[i] == cards.drop_last()[i]);
                assert(summary_selected(cards[i], deck_id, all, is_suspended, now));
                assert(summaries_of(cards, decks, deck_id, all, is_suspended, now)[k]
                    == summary_of(cards[i], decks));
            } else {
                let i = cards.len() - 1;
                assert(cards[i] == cards.last());
                assert(summary_selected(cards[i], deck_id, all, is_suspended, now));
                assert(summaries_of(cards, decks, deck_id, all, is_suspended, now)[k]
                    == summary_of(cards[i], decks));
            }
        }
        assert forall|i: int|
            0 <= i < cards.len() && summary_selected(
                #[trigger] cards[i],
                deck_id,
                all,
                is_suspended,
                now,
            ) implies summaries_of(cards, decks, deck_id, all, is_suspended, now).contains(
            summary_of(cards[i], decks),
        ) by {
            let rest = summaries_of(cards.drop_last(), decks, deck_id, all, is_suspended, now);
            let whole = summaries_of(cards, decks, deck_id, all, is_suspended, now);
            if i < cards.len() - 1 {
                assert(summary_selected(cards.drop_last()[i], deck_id, all, is_suspended, now));
                assert(summaries_of(cards.drop_last(), decks, deck_id, all, is_suspended,
                    now).contains(summary_of(cards.drop_last()[i], decks)));
                let w = choose|w: int|
                    0 <= w < rest.len() && rest[w] == summary_of(cards.drop_last()[i], decks);
                assert(whole[w] == summary_of(cards[i], decks));
            } else {
                assert(whole.last() == summary_of(cards[i], decks));
            }
        }
    }
    assert(listing_from_selected(cards, decks, deck_id, all, is_suspended, now));
    assert(selected_listed(cards, decks, deck_id, all, is_suspended, now));
}

/// The suspended listing ignores the deck filter, the `all` flag and even
/// the listing time: whatever they are, it returns exactly the suspended
/// cards' summaries.
pub proof fn lemma_suspended_listing_ignores_filters(
    cards: Seq<CardV>,
    decks: Seq<DeckV>,
    deck_id: Option<int>,
    all: bool,
    now: int,
    other_now: int,
)
    ensures
        summaries_of(cards, decks, deck_id, all, true, now) == summaries_of(
            cards,
            decks,
            None,
            false,
            true,
            other_now,
        ),
    decreases cards.len(),
{
    if cards.len() > 0 {
        lemma_suspended_listing_ignores_filters(
            cards.drop_last(),
            decks,
            deck_id,
            all,
            now,
            other_now,
        );
    }
}

/// The sidebar's deck slots map bijectively onto the deck list: slot
/// `i` in `[3, 3 + N)` shows exactly the due listing of deck `i - 3`, two
/// distinct slots in that range name two distinct decks, and a slot past the
/// range clamps (to the last deck, or to the whole collection when there is
/// none) instead of faulting.
pub proof fn lemma_slot_mapping(s: StoreV, decks: Seq<DeckV>, now: int, i: int, j: int)
    requires
        forall|p: int, q: int|
            0 <= p < q < decks.len() ==> (#[trigger] decks[p]).id != (#[trigger] decks[q]).id,
        3 <= i < 3 + decks.len(),
        3 <= j < 3 + decks.len(),
    ensures
        slot_summaries(s, i, decks, now) == summaries_of(
            s.cards,
            s.decks,
            Some(decks[i - 3].id),
            false,
            false,
            now,
        ),
        i != j ==> decks[i - 3].id != decks[j - 3].id,
        forall|k: int|
            k >= 3 + decks.len() && decks.len() > 0 ==> #[trigger] slot_summaries(s, k, decks, now)
                == summaries_of(
                s.cards,
                s.decks,
                Some(decks[decks.len() - 1].id),
                false,
                false,
                now,
            ),
        forall|k: int|
            k >= 3 && decks.len() == 0 ==> #[trigger] slot_summaries(s, k, decks, now)
                == summaries_of(s.cards, s.decks, None, true, false, now),
{
}

/// Every deck that the orphan sweep keeps has at least one referencing card.
pub proof fn lemma_sweep_keeps_only_used(s: StoreV)
    ensures
        forall|k: int|
            0 <= k < sweep_spec(s).decks.len() ==> deck_used(
                s.cards,
                (#[trigger] sweep_spec(s).decks[k]).id,
            ),
        forall|k: int|
            0 <= k < s.decks.len() && deck_used(s.cards, (#[trigger] s.decks[k]).id) ==> sweep_spec(
                s,
            ).decks.contains(s.decks[k]),
{
    lemma_live_decks(s.decks, s.cards);
}

/// A deck list in which every deck is referenced passes the sweep unchanged.
proof fn lemma_live_decks_stable(decks: Seq<DeckV>, cards: Seq<CardV>)
    requires
        forall|k: int| 0 <= k < decks.len() ==> deck_used(cards, (#[trigger] decks[k]).id),
    ensures
        live_decks(decks, cards) == decks,
    decreases decks.len(),
{
    if decks.len() > 0 {
        assert(forall|k: int| 0 <= k < decks.len() - 1 ==> decks[k] == decks.drop_last()[k]);
        lemma_live_decks_stable(decks.drop_last(), cards);
        assert(decks[decks.len() - 1] == decks.last());
        assert(live_decks(decks, cards) =~= decks);
    }
}

/// The orphan sweep is idempotent: it removes a deck exactly when no card
/// references it, so running it again removes nothing.
pub proof fn lemma_sweep_idempotent(s: StoreV)
    ensures
        sweep_spec(sweep_spec(s)) == sweep_spec(s),
{
    lemma_live_decks(s.decks, s.cards);
    lemma_live_decks_stable(live_decks(s.decks, s.cards), s.cards);
}

} // verus!
