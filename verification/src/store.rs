//! The store of decks, cards and review log entries.
//!
//! `Store` is the in-memory, authoritative relational state: three tables with
//! unique ids, referential integrity from cards to decks and from reviews to
//! cards, and an append-only review log.  Durable mirroring of this state is
//! left to the surrounding program.

use vstd::prelude::*;

use crate::error::{ReviseError, ReviseResult};
use crate::strutil::str_eq;
use vstd::string::StringExecFns;

verus! {

pub type ID = i64;

/// A named collection of cards.
pub struct Deck {
    pub id: ID,
    pub name: String,
}

/// Mathematical image of a deck.
pub struct DeckV {
    pub id: int,
    pub name: Seq<char>,
}

impl View for Deck {
    type V = DeckV;

    open spec fn view(&self) -> DeckV {
        DeckV { id: self.id as int, name: self.name@ }
    }
}

impl DeepView for Deck {
    type V = DeckV;

    open spec fn deep_view(&self) -> DeckV {
        self@
    }
}

/// A stored card row: the full persistent state of one card.
pub struct CardRecord {
    pub id: ID,
    pub deck_id: ID,
    pub title: String,
    pub desc: String,
    /// Timestamp (seconds) at which the card becomes due.
    pub next_show_date: i64,
    /// Timestamp (seconds) of creation.
    pub created_at: i64,
    pub suspended: bool,
}

/// Mathematical image of a card row.
pub struct CardV {
    pub id: int,
    pub deck_id: int,
    pub title: Seq<char>,
    pub desc: Seq<char>,
    pub next_show_date: int,
    pub created_at: int,
    pub suspended: bool,
}

impl View for CardRecord {
    type V = CardV;

    open spec fn view(&self) -> CardV {
        CardV {
            id: self.id as int,
            deck_id: self.deck_id as int,
            title: self.title@,
            desc: self.desc@,
            next_show_date: self.next_show_date as int,
            created_at: self.created_at as int,
            suspended: self.suspended,
        }
    }
}

impl DeepView for CardRecord {
    type V = CardV;

    open spec fn deep_view(&self) -> CardV {
        self@
    }
}

/// A card joined with its deck name, as handed to detail views.
pub struct Card {
    pub id: ID,
    pub deck_id: ID,
    pub deck: String,
    pub title: String,
    pub desc: String,
    pub next_show_date: i64,
    pub created_at: i64,
}

/// Read-only projection of a card for list views.
pub struct CardSummary {
    pub id: ID,
    pub deck: String,
    pub title: String,
    pub next_show_date: i64,
    pub created_at: i64,
}

/// Mathematical image of a card summary.
pub struct CardSummaryV {
    pub id: int,
    pub deck: Seq<char>,
    pub title: Seq<char>,
    pub next_show_date: int,
    pub created_at: int,
}

impl View for CardSummary {
    type V = CardSummaryV;

    open spec fn view(&self) -> CardSummaryV {
        CardSummaryV {
            id: self.id as int,
            deck: self.deck@,
            title: self.title@,
            next_show_date: self.next_show_date as int,
            created_at: self.created_at as int,
        }
    }
}

impl DeepView for CardSummary {
    type V = CardSummaryV;

    open spec fn deep_view(&self) -> CardSummaryV {
        self@
    }
}

/// One append-only review log entry.
#[derive(Clone, Copy, PartialEq, Eq, Structural, Debug)]
pub struct Review {
    pub id: ID,
    pub card_id: ID,
    /// Days until the next review, as chosen at commit time.
    pub interval: u32,
    /// Days that had elapsed since the previous review (or creation).
    pub last_interval: u32,
    /// Timestamp (seconds) of the review.
    pub review_time: i64,
    /// Encoded stability of the resulting memory state.
    pub stability: u32,
    /// Encoded difficulty of the resulting memory state.
    pub difficulty: u32,
}

/// Mathematical image of a review log entry.
pub struct ReviewV {
    pub id: int,
    pub card_id: int,
    pub interval: u32,
    pub last_interval: u32,
    pub review_time: int,
    pub stability: u32,
    pub difficulty: u32,
}

impl View for Review {
    type V = ReviewV;

    open spec fn view(&self) -> ReviewV {
        ReviewV {
            id: self.id as int,
            card_id: self.card_id as int,
            interval: self.interval,
            last_interval: self.last_interval,
            review_time: self.review_time as int,
            stability: self.stability,
            difficulty: self.difficulty,
        }
    }
}

impl DeepView for Review {
    type V = ReviewV;

    open spec fn deep_view(&self) -> ReviewV {
        self@
    }
}

/// Mathematical image of the whole store.
pub struct StoreV {
    pub decks: Seq<DeckV>,
    pub cards: Seq<CardV>,
    pub reviews: Seq<ReviewV>,
    pub next_deck_id: int,
    pub next_card_id: int,
    pub next_review_id: int,
}

/// Index of the first deck with the given id, `-1` when absent.
pub open spec fn deck_index(decks: Seq<DeckV>, id: int) -> int
    decreases decks.len(),
{
    if decks.len() == 0 {
        -1
    } else if decks[0].id == id {
        0
    } else {
        let rest = deck_index(decks.drop_first(), id);
        if rest == -1 {
            -1
        } else {
            rest + 1
        }
    }
}

/// Index of the first deck with the given name, `-1` when absent.
pub open spec fn deck_index_by_name(decks: Seq<DeckV>, name: Seq<char>) -> int
    decreases decks.len(),
{
    if decks.len() == 0 {
        -1
    } else if decks[0].name == name {
        0
    } else {
        let rest = deck_index_by_name(decks.drop_first(), name);
        if rest == -1 {
            -1
        } else {
            rest + 1
        }
    }
}

/// Index of the first card with the given id, `-1` when absent.
pub open spec fn card_index(cards: Seq<CardV>, id: int) -> int
    decreases cards.len(),
{
    if cards.len() == 0 {
        -1
    } else if cards[0].id == id {
        0
    } else {
        let rest = card_index(cards.drop_first(), id);
        if rest == -1 {
            -1
        } else {
            rest + 1
        }
    }
}

/// Some deck carries the given id.
pub open spec fn has_deck(decks: Seq<DeckV>, id: int) -> bool {
    exists|k: int| 0 <= k < decks.len() && (#[trigger] decks[k]).id == id
}

/// Some deck carries the given name.
pub open spec fn has_deck_named(decks: Seq<DeckV>, name: Seq<char>) -> bool {
    exists|k: int| 0 <= k < decks.len() && (#[trigger] decks[k]).name == name
}

/// Some card carries the given id.
pub open spec fn has_card(cards: Seq<CardV>, id: int) -> bool {
    exists|k: int| 0 <= k < cards.len() && (#[trigger] cards[k]).id == id
}

/// Some card references the given deck.
pub open spec fn deck_used(cards: Seq<CardV>, deck_id: int) -> bool {
    exists|k: int| 0 <= k < cards.len() && (#[trigger] cards[k]).deck_id == deck_id
}

pub broadcast proof fn lemma_deck_index(decks: Seq<DeckV>, id: int)
    ensures
        -1 <= #[trigger] deck_index(decks, id) < decks.len(),
        deck_index(decks, id) >= 0 ==> decks[deck_index(decks, id)].id == id,
        deck_index(decks, id) == -1 ==> forall|k: int|
            0 <= k < decks.len() ==> (#[trigger] decks[k]).id != id,
        forall|k: int|
            0 <= k < decks.len() && (#[trigger] decks[k]).id == id ==> deck_index(decks, id) >= 0
                && deck_index(decks, id) <= k,
    decreases decks.len(),
{
    if decks.len() > 0 && decks[0].id != id {
        lemma_deck_index(decks.drop_first(), id);
        assert(forall|k: int| 1 <= k < decks.len() ==> decks[k] == decks.drop_first()[k - 1]);
    }
}

pub broadcast proof fn lemma_deck_index_by_name(decks: Seq<DeckV>, name: Seq<char>)
    ensures
        -1 <= #[trigger] deck_index_by_name(decks, name) < decks.len(),
        deck_index_by_name(decks, name) >= 0 ==> decks[deck_index_by_name(decks, name)].name
            == name,
        deck_index_by_name(decks, name) == -1 ==> forall|k: int|
            0 <= k < decks.len() ==> (#[trigger] decks[k]).name != name,
        forall|k: int|
            0 <= k < decks.len() && (#[trigger] decks[k]).name == name ==> deck_index_by_name(
                decks,
                name,
            ) >= 0 && deck_index_by_name(decks, name) <= k,
    decreases decks.len(),
{
    if decks.len() > 0 && decks[0].name != name {
        lemma_deck_index_by_name(decks.drop_first(), name);
        assert(forall|k: int| 1 <= k < decks.len() ==> decks[k] == decks.drop_first()[k - 1]);
    }
}

pub broadcast proof fn lemma_card_index(cards: Seq<CardV>, id: int)
    ensures
        -1 <= #[trigger] card_index(cards, id) < cards.len(),
        card_index(cards, id) >= 0 ==> cards[card_index(cards, id)].id == id,
        card_index(cards, id) == -1 ==> forall|k: int|
            0 <= k < cards.len() ==> (#[trigger] cards[k]).id != id,
        forall|k: int|
            0 <= k < cards.len() && (#[trigger] cards[k]).id == id ==> card_index(cards, id) >= 0
                && card_index(cards, id) <= k,
    decreases cards.len(),
{
    if cards.len() > 0 && cards[0].id != id {
        lemma_card_index(cards.drop_first(), id);
        assert(forall|k: int| 1 <= k < cards.len() ==> cards[k] == cards.drop_first()[k - 1]);
    }
}

impl StoreV {
    /// Relational well-formedness: unique ids and names, referential
    /// integrity, a strictly increasing review log, and id counters above
    /// every allocated id.
    pub open spec fn wf(self) -> bool {
        &&& forall|i: int, j: int|
            0 <= i < j < self.decks.len() ==> (#[trigger] self.decks[i]).id != (
            #[trigger] self.decks[j]).id
        &&& forall|i: int, j: int|
            0 <= i < j < self.decks.len() ==> (#[trigger] self.decks[i]).name != (
            #[trigger] self.decks[j]).name
        &&& forall|i: int, j: int|
            0 <= i < j < self.cards.len() ==> (#[trigger] self.cards[i]).id != (
            #[trigger] self.cards[j]).id
        &&& forall|i: int, j: int|
            0 <= i < j < self.reviews.len() ==> (#[trigger] self.reviews[i]).id < (
            #[trigger] self.reviews[j]).id
        &&& forall|i: int|
            0 <= i < self.cards.len() ==> has_deck(self.decks, (#[trigger] self.cards[i]).deck_id)
        &&& forall|i: int|
            0 <= i < self.reviews.len() ==> has_card(
                self.cards,
                (#[trigger] self.reviews[i]).card_id,
            )
        &&& forall|i: int| 0 <= i < self.decks.len() ==> (#[trigger] self.decks[i]).id < self.next_deck_id
        &&& forall|i: int| 0 <= i < self.cards.len() ==> (#[trigger] self.cards[i]).id < self.next_card_id
        &&& forall|i: int|
            0 <= i < self.reviews.len() ==> (#[trigger] self.reviews[i]).id < self.next_review_id
        &&& 1 <= self.next_deck_id <= i64::MAX
        &&& 1 <= self.next_card_id <= i64::MAX
        &&& 1 <= self.next_review_id <= i64::MAX
    }
}

/// The in-memory relational store.
pub struct Store {
    decks: Vec<Deck>,
    cards: Vec<CardRecord>,
    reviews: Vec<Review>,
    next_deck_id: ID,
    next_card_id: ID,
    next_review_id: ID,
}

impl View for Store {
    type V = StoreV;

    closed spec fn view(&self) -> StoreV {
        StoreV {
            decks: self.decks.deep_view(),
            cards: self.cards.deep_view(),
            reviews: self.reviews.deep_view(),
            next_deck_id: self.next_deck_id as int,
            next_card_id: self.next_card_id as int,
            next_review_id: self.next_review_id as int,
        }
    }
}

/// What a successful `add_deck` leaves behind.
pub open spec fn add_deck_spec(s: StoreV, name: Seq<char>) -> StoreV {
    StoreV {
        decks: s.decks.push(DeckV { id: s.next_deck_id, name }),
        next_deck_id: s.next_deck_id + 1,
        ..s
    }
}

/// `add_deck` succeeds exactly when the name is not yet taken and an id can
/// still be allocated.
pub open spec fn add_deck_ok(s: StoreV, name: Seq<char>) -> bool {
    !has_deck_named(s.decks, name) && s.next_deck_id < i64::MAX
}

impl Store {
    pub open spec fn wf(&self) -> bool {
        self@.wf()
    }

    /// An empty store.
    pub fn new() -> (s: Store)
        ensures
            s.wf(),
            s@.decks =~= Seq::<DeckV>::empty(),
            s@.cards =~= Seq::<CardV>::empty(),
            s@.reviews =~= Seq::<ReviewV>::empty(),
            s@.next_deck_id == 1,
            s@.next_card_id == 1,
            s@.next_review_id == 1,
    {
        Store {
            decks: Vec::new(),
            cards: Vec::new(),
            reviews: Vec::new(),
            next_deck_id: 1,
            next_card_id: 1,
            next_review_id: 1,
        }
    }

    /// Index of the deck with the given id in the deck table.
    fn find_deck(&self, id: ID) -> (r: Option<usize>)
        ensures
            match r {
                Some(i) => i == deck_index(self@.decks, id as int),
                None => deck_index(self@.decks, id as int) == -1,
            },
    {
        proof {
            lemma_deck_index(self@.decks, id as int);
        }
        let mut i: usize = 0;
        while i < self.decks.len()
            invariant
                i <= self.decks.len(),
                self@.decks.len() == self.decks.len(),
                forall|k: int| 0 <= k < i ==> (#[trigger] self@.decks[k]).id != id as int,
                -1 <= deck_index(self@.decks, id as int) < self@.decks.len(),
                deck_index(self@.decks, id as int) >= 0 ==> self@.decks[deck_index(
                    self@.decks,
                    id as int,
                )].id == id as int,
                forall|k: int|
                    0 <= k < self@.decks.len() && (#[trigger] self@.decks[k]).id == id as int
                        ==> deck_index(self@.decks, id as int) >= 0 && deck_index(
                        self@.decks,
                        id as int,
                    ) <= k,
            decreases self.decks.len() - i,
        {
            if self.decks[i].id == id {
                proof {
                    let di = deck_index(self@.decks, id as int);
                    assert(self@.decks[i as int] == self.decks@[i as int].deep_view());
                    assert(self@.decks[i as int].id == id as int);
                    assert(di >= 0 && di <= i as int);
                    if di < i as int {
                        assert(self@.decks[di].id == id as int);
                        assert(false);
                    }
                }
                return Some(i);
            }
            i = i + 1;
        }
        proof {
            if deck_index(self@.decks, id as int) >= 0 {
                assert(self@.decks[deck_index(self@.decks, id as int)].id == id as int);
            }
        }
        None
    }

    /// Index of the deck with the given name in the deck table.
    fn find_deck_by_name(&self, name: &str) -> (r: Option<usize>)
        ensures
            match r {
                Some(i) => i == deck_index_by_name(self@.decks, name@),
                None => deck_index_by_name(self@.decks, name@) == -1,
            },
    {
        proof {
            lemma_deck_index_by_name(self@.decks, name@);
        }
        let mut i: usize = 0;
        while i < self.decks.len()
            invariant
                i <= self.decks.len(),
                self@.decks.len() == self.decks.len(),
                forall|k: int| 0 <= k < i ==> (#[trigger] self@.decks[k]).name != name@,
                -1 <= deck_index_by_name(self@.decks, name@) < self@.decks.len(),
                deck_index_by_name(self@.decks, name@) >= 0 ==> self@.decks[deck_index_by_name(
                    self@.decks,
                    name@,
                )].name == name@,
                forall|k: int|
                    0 <= k < self@.decks.len() && (#[trigger] self@.decks[k]).name == name@
                        ==> deck_index_by_name(self@.decks, name@) >= 0 && deck_index_by_name(
                        self@.decks,
                        name@,
                    ) <= k,
            decreases self.decks.len() - i,
        {
            if str_eq(self.decks[i].name.as_str(), name) {
                proof {
                    let di = deck_index_by_name(self@.decks, name@);
                    assert(self@.decks[i as int] == self.decks@[i as int].deep_view());
                    assert(self@.decks[i as int].name == name@);
                    assert(di >= 0 && di <= i as int);
                    if di < i as int {
                        assert(self@.decks[di].name == name@);
                        assert(false);
                    }
                }
                return Some(i);
            }
            i = i + 1;
        }
        None
    }

    /// Index of the card with the given id in the card table.
    fn find_card(&self, id: ID) -> (r: Option<usize>)
        ensures
            match r {
                Some(i) => i == card_index(self@.cards, id as int),
                None => card_index(self@.cards, id as int) == -1,
            },
    {
        proof {
            lemma_card_index(self@.cards, id as int);
        }
        let mut i: usize = 0;
        while i < self.cards.len()
            invariant
                i <= self.cards.len(),
                self@.cards.len() == self.cards.len(),
                forall|k: int| 0 <= k < i ==> (#[trigger] self@.cards[k]).id != id as int,
                -1 <= card_index(self@.cards, id as int) < self@.cards.len(),
                card_index(self@.cards, id as int) >= 0 ==> self@.cards[card_index(
                    self@.cards,
                    id as int,
                )].id == id as int,
                forall|k: int|
                    0 <= k < self@.cards.len() && (#[trigger] self@.cards[k]).id == id as int
                        ==> card_index(self@.cards, id as int) >= 0 && card_index(
                        self@.cards,
                        id as int,
                    ) <= k,
            decreases self.cards.len() - i,
        {
            if self.cards[i].id == id {
                proof {
                    let ci = card_index(self@.cards, id as int);
                    assert(self@.cards[i as int] == self.cards@[i as int].deep_view());
                    assert(self@.cards[i as int].id == id as int);
                    assert(ci >= 0 && ci <= i as int);
                    if ci < i as int {
                        assert(self@.cards[ci].id == id as int);
                        assert(false);
                    }
                }
                return Some(i);
            }
            i = i + 1;
        }
        None
    }

    /// Creates a deck with a fresh id.  Fails exactly when the name is
    /// already taken or the id counter is exhausted; a failure leaves the
    /// store unchanged.
    pub fn add_deck(&mut self, name: &str) -> (r: ReviseResult<()>)
        requires
            old(self).wf(),
        ensures
            final(self).wf(),
            add_deck_ok(old(self)@, name@) ==> r is Ok && final(self)@ == add_deck_spec(
                old(self)@,
                name@,
            ),
            !add_deck_ok(old(self)@, name@) ==> r == ReviseResult::<()>::Err(
                ReviseError::PersistenceFailure,
            ) && final(self)@ == old(self)@,
    {
        proof {
            lemma_deck_index_by_name(self@.decks, name@);
        }
        if self.find_deck_by_name(name).is_some() {
            return Err(ReviseError::PersistenceFailure);
        }
        if self.next_deck_id == i64::MAX {
            return Err(ReviseError::PersistenceFailure);
        }
        let ghost pre = self@;
        let deck = Deck { id: self.next_deck_id, name: name.to_owned() };
        self.decks.push(deck);
        self.next_deck_id = self.next_deck_id + 1;
        proof {
            assert(self@.decks =~= add_deck_spec(pre, name@).decks);
            assert(self@.cards =~= pre.cards);
            assert(self@.reviews =~= pre.reviews);
            assert(self@ == add_deck_spec(pre, name@));
            assert forall|i: int|
                0 <= i < self@.cards.len() implies has_deck(
                self@.decks,
                (#[trigger] self@.cards[i]).deck_id,
            ) by {
                assert(has_deck(pre.decks, self@.cards[i].deck_id));
                let k = choose|k: int|
                    0 <= k < pre.decks.len() && (#[trigger] pre.decks[k]).id
                        == self@.cards[i].deck_id;
                assert(self@.decks[k].id == self@.cards[i].deck_id);
            }
            assert(self.wf());
        }
        Ok(())
    }

    /// The deck table in listing order.
    pub fn list_decks(&self) -> (r: ReviseResult<Vec<Deck>>)
        ensures
            r is Ok,
            r matches Ok(d) ==> d.deep_view() =~= self@.decks,
    {
        let mut out: Vec<Deck> = Vec::new();
        let mut i: usize = 0;
        while i < self.decks.len()
            invariant
                i <= self.decks.len(),
                self@.decks.len() == self.decks.len(),
                out@.len() == i,
                forall|k: int| 0 <= k < i ==> (#[trigger] out@[k]).deep_view() == self@.decks[k],
            decreases self.decks.len() - i,
        {
            let d = &self.decks[i];
            out.push(Deck { id: d.id, name: d.name.clone() });
            proof {
                assert(out@[i as int].deep_view() == self@.decks[i as int]);
            }
            i = i + 1;
        }
        proof {
            assert(out.deep_view() =~= self@.decks);
        }
        Ok(out)
    }
}

/// Mathematical image of a joined card.
pub struct CardDetailV {
    pub id: int,
    pub deck_id: int,
    pub deck: Seq<char>,
    pub title: Seq<char>,
    pub desc: Seq<char>,
    pub next_show_date: int,
    pub created_at: int,
}

impl View for Card {
    type V = CardDetailV;

    open spec fn view(&self) -> CardDetailV {
        CardDetailV {
            id: self.id as int,
            deck_id: self.deck_id as int,
            deck: self.deck@,
            title: self.title@,
            desc: self.desc@,
            next_show_date: self.next_show_date as int,
            created_at: self.created_at as int,
        }
    }
}

/// Name of the deck with the given id (meaningful only when the deck exists).
pub open spec fn deck_name_of(decks: Seq<DeckV>, id: int) -> Seq<char> {
    decks[deck_index(decks, id)].name
}

/// A card row joined with its deck name.
pub open spec fn card_join(c: CardV, decks: Seq<DeckV>) -> CardDetailV {
    CardDetailV {
        id: c.id,
        deck_id: c.deck_id,
        deck: deck_name_of(decks, c.deck_id),
        title: c.title,
        desc: c.desc,
        next_show_date: c.next_show_date,
        created_at: c.created_at,
    }
}

/// What a successful `add_card` leaves behind: one fresh row, due
/// immediately, not suspended.
pub open spec fn add_card_spec(
    s: StoreV,
    deck_id: int,
    title: Seq<char>,
    desc: Seq<char>,
    now: int,
) -> StoreV {
    StoreV {
        cards: s.cards.push(
            CardV {
                id: s.next_card_id,
                deck_id,
                title,
                desc,
                next_show_date: now,
                created_at: now,
                suspended: false,
            },
        ),
        next_card_id: s.next_card_id + 1,
        ..s
    }
}

/// `add_card` succeeds exactly when the deck exists and an id can still be
/// allocated.
pub open spec fn add_card_ok(s: StoreV, deck_id: int) -> bool {
    has_deck(s.decks, deck_id) && s.next_card_id < i64::MAX
}

/// The card table with the due date of one card replaced.
pub open spec fn update_card_spec(s: StoreV, id: int, next_show_date: int) -> StoreV {
    StoreV {
        cards: Seq::new(
            s.cards.len(),
            |i: int|
                if s.cards[i].id == id {
                    CardV { next_show_date, ..s.cards[i] }
                } else {
                    s.cards[i]
                },
        ),
        ..s
    }
}

/// The card table with the suspended flag of one card replaced.
pub open spec fn set_suspended_spec(s: StoreV, id: int, suspended: bool) -> StoreV {
    StoreV {
        cards: Seq::new(
            s.cards.len(),
            |i: int|
                if s.cards[i].id == id {
                    CardV { suspended, ..s.cards[i] }
                } else {
                    s.cards[i]
                },
        ),
        ..s
    }
}

/// The card table with title, deck and description of one card replaced.
pub open spec fn update_details_spec(
    s: StoreV,
    id: int,
    title: Seq<char>,
    deck_id: int,
    desc: Seq<char>,
) -> StoreV {
    StoreV {
        cards: Seq::new(
            s.cards.len(),
            |i: int|
                if s.cards[i].id == id {
                    CardV { title, deck_id, desc, ..s.cards[i] }
                } else {
                    s.cards[i]
                },
        ),
        ..s
    }
}

/// Pointwise id-preserving rewrites keep card lookups intact.
proof fn lemma_has_card_pointwise(a: Seq<CardV>, b: Seq<CardV>)
    requires
        a.len() == b.len(),
        forall|i: int| 0 <= i < a.len() ==> (#[trigger] a[i]).id == (#[trigger] b[i]).id,
    ensures
        forall|x: int| has_card(a, x) <==> has_card(b, x),
{
    assert forall|x: int| has_card(a, x) implies has_card(b, x) by {
        let k = choose|k: int| 0 <= k < a.len() && (#[trigger] a[k]).id == x;
        assert(b[k].id == x);
    }
    assert forall|x: int| has_card(b, x) implies has_card(a, x) by {
        let k = choose|k: int| 0 <= k < b.len() && (#[trigger] b[k]).id == x;
        assert(a[k].id == x);
    }
}

/// Appending a card keeps every existing card lookup intact.
proof fn lemma_has_card_push(cards: Seq<CardV>, c: CardV)
    ensures
        forall|x: int| has_card(cards, x) ==> has_card(cards.push(c), x),
{
    assert forall|x: int| has_card(cards, x) implies has_card(cards.push(c), x) by {
        let k = choose|k: int| 0 <= k < cards.len() && (#[trigger] cards[k]).id == x;
        assert(cards.push(c)[k].id == x);
    }
}

impl CardSummary {
    /// A field-for-field copy.
    pub fn duplicate(&self) -> (r: CardSummary)
        ensures
            r@ == self@,
    {
        CardSummary {
            id: self.id,
            deck: self.deck.clone(),
            title: self.title.clone(),
            next_show_date: self.next_show_date,
            created_at: self.created_at,
        }
    }
}

impl CardRecord {
    /// A field-for-field copy.
    pub fn duplicate(&self) -> (r: CardRecord)
        ensures
            r@ == self@,
    {
        CardRecord {
            id: self.id,
            deck_id: self.deck_id,
            title: self.title.clone(),
            desc: self.desc.clone(),
            next_show_date: self.next_show_date,
            created_at: self.created_at,
            suspended: self.suspended,
        }
    }
}

impl Store {
    /// Creates a card in the given deck, due immediately.  Fails with
    /// `NotFound` when the deck is absent and with `PersistenceFailure` when
    /// the id counter is exhausted; a failure leaves the store unchanged.
    pub fn add_card(&mut self, deck_id: ID, title: &str, desc: &str, now: i64) -> (r: ReviseResult<
        (),
    >)
        requires
            old(self).wf(),
        ensures
            final(self).wf(),
            add_card_ok(old(self)@, deck_id as int) ==> r is Ok && final(self)@ == add_card_spec(
                old(self)@,
                deck_id as int,
                title@,
                desc@,
                now as int,
            ),
            !has_deck(old(self)@.decks, deck_id as int) ==> r == ReviseResult::<()>::Err(
                ReviseError::NotFound(deck_id),
            ) && final(self)@ == old(self)@,
            has_deck(old(self)@.decks, deck_id as int) && old(self)@.next_card_id == i64::MAX ==> r
                == ReviseResult::<()>::Err(ReviseError::PersistenceFailure) && final(self)@ == old(self)@,
    {
        proof {
            lemma_deck_index(self@.decks, deck_id as int);
        }
        match self.find_deck(deck_id) {
            None => {
                return Err(ReviseError::NotFound(deck_id));
            },
            Some(_) => {},
        }
        if self.next_card_id == i64::MAX {
            return Err(ReviseError::PersistenceFailure);
        }
        let ghost pre = self@;
        let card = CardRecord {
            id: self.next_card_id,
            deck_id,
            title: title.to_owned(),
            desc: desc.to_owned(),
            next_show_date: now,
            created_at: now,
            suspended: false,
        };
        self.cards.push(card);
        self.next_card_id = self.next_card_id + 1;
        proof {
            assert(self@.cards =~= add_card_spec(
                pre,
                deck_id as int,
                title@,
                desc@,
                now as int,
            ).cards);
            assert(self@.decks =~= pre.decks);
            assert(self@.reviews =~= pre.reviews);
            assert(self@ == add_card_spec(pre, deck_id as int, title@, desc@, now as int));
            lemma_has_card_push(pre.cards, self@.cards.last());
            assert(self.wf());
        }
        Ok(())
    }

    /// Rebuilds the card table pointwise; the card with the given id (if any)
    /// gets the new due date.
    pub fn update_card(&mut self, id: ID, next_show_date: i64) -> (r: ReviseResult<()>)
        requires
            old(self).wf(),
        ensures
            final(self).wf(),
            r is Ok,
            final(self)@ == update_card_spec(old(self)@, id as int, next_show_date as int),
    {
        let ghost pre = self@;
        let ghost target = update_card_spec(pre, id as int, next_show_date as int);
        let mut out: Vec<CardRecord> = Vec::new();
        let mut i: usize = 0;
        while i < self.cards.len()
            invariant
                i <= self.cards.len(),
                pre == self@,
                pre.cards.len() == self.cards.len(),
                target == update_card_spec(pre, id as int, next_show_date as int),
                out@.len() == i,
                forall|k: int| 0 <= k < i ==> (#[trigger] out@[k]).deep_view() == target.cards[k],
            decreases self.cards.len() - i,
        {
            let c = &self.cards[i];
            if c.id == id {
                let mut nc = c.duplicate();
                nc.next_show_date = next_show_date;
                out.push(nc);
            } else {
                out.push(c.duplicate());
            }
            proof {
                assert(out@[i as int].deep_view() == target.cards[i as int]);
            }
            i = i + 1;
        }
        self.cards = out;
        proof {
            assert(self@.cards =~= target.cards);
            assert(self@.decks =~= target.decks);
            assert(self@.reviews =~= target.reviews);
            assert(self@ == target);
            lemma_has_card_pointwise(pre.cards, self@.cards);
            assert(self.wf());
        }
        Ok(())
    }

    /// Rebuilds the card table pointwise with one suspended flag replaced.
    fn set_suspended(&mut self, id: ID, suspended: bool)
        requires
            old(self).wf(),
        ensures
            final(self).wf(),
            final(self)@ == set_suspended_spec(old(self)@, id as int, suspended),
    {
        let ghost pre = self@;
        let ghost target = set_suspended_spec(pre, id as int, suspended);
        let mut out: Vec<CardRecord> = Vec::new();
        let mut i: usize = 0;
        while i < self.cards.len()
            invariant
                i <= self.cards.len(),
                pre == self@,
                pre.cards.len() == self.cards.len(),
                target == set_suspended_spec(pre, id as int, suspended),
                out@.len() == i,
                forall|k: int| 0 <= k < i ==> (#[trigger] out@[k]).deep_view() == target.cards[k],
            decreases self.cards.len() - i,
        {
            let c = &self.cards[i];
            if c.id == id {
                let mut nc = c.duplicate();
                nc.suspended = suspended;
                out.push(nc);
            } else {
                out.push(c.duplicate());
            }
            proof {
                assert(out@[i as int].deep_view() == target.cards[i as int]);
            }
            i = i + 1;
        }
        self.cards = out;
        proof {
            assert(self@.cards =~= target.cards);
            assert(self@.decks =~= target.decks);
            assert(self@.reviews =~= target.reviews);
            assert(self@ == target);
            lemma_has_card_pointwise(pre.cards, self@.cards);
            assert(self.wf());
        }
    }

    /// Marks a card suspended, excluding it from due listings; a missing id
    /// is a no-op, as in the underlying storage.
    pub fn suspend_card(&mut self, card_id: ID) -> (r: ReviseResult<()>)
        requires
            old(self).wf(),
        ensures
            final(self).wf(),
            r is Ok,
            final(self)@ == set_suspended_spec(old(self)@, card_id as int, true),
    {
        self.set_suspended(card_id, true);
        Ok(())
    }

    /// Clears the suspended flag of a card; a missing id is a no-op.
    pub fn unsuspend_card(&mut self, card_id: ID) -> (r: ReviseResult<()>)
        requires
            old(self).wf(),
        ensures
            final(self).wf(),
            r is Ok,
            final(self)@ == set_suspended_spec(old(self)@, card_id as int, false),
    {
        self.set_suspended(card_id, false);
        Ok(())
    }

    /// The card with the given id, joined with its deck name.
    pub fn get_card(&self, id: ID) -> (r: ReviseResult<Card>)
        requires
            self.wf(),
        ensures
            r is Ok <==> has_card(self@.cards, id as int),
            r matches Ok(c) ==> c@ == card_join(
                self@.cards[card_index(self@.cards, id as int)],
                self@.decks,
            ),
            r matches Err(e) ==> e == ReviseError::NotFound(id),
    {
        proof {
            lemma_card_index(self@.cards, id as int);
        }
        let i = match self.find_card(id) {
            None => {
                return Err(ReviseError::NotFound(id));
            },
            Some(i) => i,
        };
        let c = &self.cards[i];
        proof {
            assert(has_card(self@.cards, id as int)) by {
                assert(self@.cards[i as int].id == id as int);
            }
            lemma_deck_index(self@.decks, c.deck_id as int);
            if deck_index(self@.decks, c.deck_id as int) == -1 {
                assert(has_deck(self@.decks, self@.cards[i as int].deck_id));
                let k = choose|k: int|
                    0 <= k < self@.decks.len() && (#[trigger] self@.decks[k]).id
                        == self@.cards[i as int].deck_id;
                assert(false);
            }
        }
        let j = match self.find_deck(c.deck_id) {
            None => {
                return Err(ReviseError::NotFound(c.deck_id));
            },
            Some(j) => j,
        };
        let d = &self.decks[j];
        Ok(
            Card {
                id: c.id,
                deck_id: c.deck_id,
                deck: d.name.clone(),
                title: c.title.clone(),
                desc: c.desc.clone(),
                next_show_date: c.next_show_date,
                created_at: c.created_at,
            },
        )
    }
}

/// The review log entries of one card, oldest first.
pub open spec fn reviews_for(reviews: Seq<ReviewV>, card_id: int) -> Seq<ReviewV>
    decreases reviews.len(),
{
    if reviews.len() == 0 {
        Seq::empty()
    } else {
        let rest = reviews_for(reviews.drop_last(), card_id);
        if reviews.last().card_id == card_id {
            rest.push(reviews.last())
        } else {
            rest
        }
    }
}

/// The review log without the entries of one card.
pub open spec fn reviews_without_card(reviews: Seq<ReviewV>, card_id: int) -> Seq<ReviewV>
    decreases reviews.len(),
{
    if reviews.len() == 0 {
        Seq::empty()
    } else {
        let rest = reviews_without_card(reviews.drop_last(), card_id);
        if reviews.last().card_id == card_id {
            rest
        } else {
            rest.push(reviews.last())
        }
    }
}

/// The card table without one card.
pub open spec fn cards_without(cards: Seq<CardV>, id: int) -> Seq<CardV>
    decreases cards.len(),
{
    if cards.len() == 0 {
        Seq::empty()
    } else {
        let rest = cards_without(cards.drop_last(), id);
        if cards.last().id == id {
            rest
        } else {
            rest.push(cards.last())
        }
    }
}

/// What a successful `add_review` leaves behind: the entry appended under a
/// fresh id.
pub open spec fn add_review_spec(s: StoreV, r: ReviewV) -> StoreV {
    StoreV {
        reviews: s.reviews.push(ReviewV { id: s.next_review_id, ..r }),
        next_review_id: s.next_review_id + 1,
        ..s
    }
}

/// `add_review` succeeds exactly when the card exists and an id can still be
/// allocated.
pub open spec fn add_review_ok(s: StoreV, card_id: int) -> bool {
    has_card(s.cards, card_id) && s.next_review_id < i64::MAX
}

/// Removing a card removes exactly its row and its review log entries.
pub open spec fn remove_card_spec(s: StoreV, id: int) -> StoreV {
    StoreV {
        cards: cards_without(s.cards, id),
        reviews: reviews_without_card(s.reviews, id),
        ..s
    }
}

pub proof fn lemma_cards_without(cards: Seq<CardV>, id: int)
    ensures
        cards_without(cards, id).len() <= cards.len(),
        forall|k: int|
            0 <= k < cards_without(cards, id).len() ==> (#[trigger] cards_without(cards, id)[k]).id
                != id && cards.contains(cards_without(cards, id)[k]),
        forall|k: int|
            0 <= k < cards.len() && (#[trigger] cards[k]).id != id ==> cards_without(
                cards,
                id,
            ).contains(cards[k]),
    decreases cards.len(),
{
    if cards.len() > 0 {
        lemma_cards_without(cards.drop_last(), id);
        let rest = cards_without(cards.drop_last(), id);
        assert(forall|k: int| 0 <= k < cards.len() - 1 ==> cards[k] == cards.drop_last()[k]);
        assert forall|k: int|
            0 <= k < cards_without(cards, id).len() implies (#[trigger] cards_without(
            cards,
            id,
        )[k]).id != id && cards.contains(cards_without(cards, id)[k]) by {
            if k < rest.len() {
                assert(cards_without(cards, id)[k] == rest[k]);
                let w = choose|w: int|
                    0 <= w < cards.drop_last().len() && cards.drop_last()[w] == rest[k];
                assert(cards[w] == rest[k]);
            } else {
                assert(cards_without(cards, id)[k] == cards.last());
                assert(cards[cards.len() - 1] == cards.last());
            }
        }
        assert forall|k: int|
            0 <= k < cards.len() && (#[trigger] cards[k]).id != id implies cards_without(
            cards,
            id,
        ).contains(cards[k]) by {
            if k < cards.len() - 1 {
                assert(cards.drop_last().contains(cards[k])) by {
                    assert(cards.drop_last()[k] == cards[k]);
                }
                let w = choose|w: int| 0 <= w < rest.len() && rest[w] == cards[k];
                assert(cards_without(cards, id)[w] == cards[k]);
            } else {
                assert(cards_without(cards, id).last() == cards[k]);
            }
        }
    }
}

proof fn lemma_cards_without_distinct(cards: Seq<CardV>, id: int)
    requires
        forall|i: int, j: int|
            0 <= i < j < cards.len() ==> (#[trigger] cards[i]).id != (#[trigger] cards[j]).id,
    ensures
        forall|i: int, j: int|
            0 <= i < j < cards_without(cards, id).len() ==> (#[trigger] cards_without(
                cards,
                id,
            )[i]).id != (#[trigger] cards_without(cards, id)[j]).id,
    decreases cards.len(),
{
    if cards.len() > 0 {
        assert(forall|k: int| 0 <= k < cards.len() - 1 ==> cards[k] == cards.drop_last()[k]);
        lemma_cards_without_distinct(cards.drop_last(), id);
        lemma_cards_without(cards.drop_last(), id);
        let rest = cards_without(cards.drop_last(), id);
        assert forall|i: int, j: int|
            0 <= i < j < cards_without(cards, id).len() implies (#[trigger] cards_without(
            cards,
            id,
        )[i]).id != (#[trigger] cards_without(cards, id)[j]).id by {
            if j < rest.len() {
                assert(cards_without(cards, id)[i] == rest[i]);
                assert(cards_without(cards, id)[j] == rest[j]);
            } else {
                assert(cards_without(cards, id)[j] == cards.last());
                assert(cards_without(cards, id)[i] == rest[i]);
                let w = choose|w: int|
                    0 <= w < cards.drop_last().len() && cards.drop_last()[w] == rest[i];
                assert(cards[w] == rest[i]);
                assert(cards[w].id != cards.last().id);
            }
        }
    }
}

pub proof fn lemma_reviews_without_card(reviews: Seq<ReviewV>, card_id: int)
    ensures
        reviews_without_card(reviews, card_id).len() <= reviews.len(),
        forall|k: int|
            0 <= k < reviews_without_card(reviews, card_id).len() ==> (
            #[trigger] reviews_without_card(reviews, card_id)[k]).card_id != card_id
                && reviews.contains(reviews_without_card(reviews, card_id)[k]),
        forall|k: int|
            0 <= k < reviews.len() && (#[trigger] reviews[k]).card_id != card_id
                ==> reviews_without_card(reviews, card_id).contains(reviews[k]),
    decreases reviews.len(),
{
    if reviews.len() > 0 {
        lemma_reviews_without_card(reviews.drop_last(), card_id);
        let rest = reviews_without_card(reviews.drop_last(), card_id);
        assert(forall|k: int| 0 <= k < reviews.len() - 1 ==> reviews[k] == reviews.drop_last()[k]);
        assert forall|k: int|
            0 <= k < reviews_without_card(reviews, card_id).len() implies (
        #[trigger] reviews_without_card(reviews, card_id)[k]).card_id != card_id
            && reviews.contains(reviews_without_card(reviews, card_id)[k]) by {
            if k < rest.len() {
                assert(reviews_without_card(reviews, card_id)[k] == rest[k]);
                let w = choose|w: int|
                    0 <= w < reviews.drop_last().len() && reviews.drop_last()[w] == rest[k];
                assert(reviews[w] == rest[k]);
            } else {
                assert(reviews_without_card(reviews, card_id)[k] == reviews.last());
                assert(reviews[reviews.len() - 1] == reviews.last());
            }
        }
        assert forall|k: int|
            0 <= k < reviews.len() && (#[trigger] reviews[k]).card_id
                != card_id implies reviews_without_card(reviews, card_id).contains(reviews[k]) by {
            if k < reviews.len() - 1 {
                assert(reviews.drop_last().contains(reviews[k])) by {
                    assert(reviews.drop_last()[k] == reviews[k]);
                }
                let w = choose|w: int| 0 <= w < rest.len() && rest[w] == reviews[k];
                assert(reviews_without_card(reviews, card_id)[w] == reviews[k]);
            } else {
                assert(reviews_without_card(reviews, card_id).last() == reviews[k]);
            }
        }
    }
}

proof fn lemma_reviews_without_card_increasing(reviews: Seq<ReviewV>, card_id: int)
    requires
        forall|i: int, j: int|
            0 <= i < j < reviews.len() ==> (#[trigger] reviews[i]).id < (#[trigger] reviews[j]).id,
    ensures
        forall|i: int, j: int|
            0 <= i < j < reviews_without_card(reviews, card_id).len() ==> (
            #[trigger] reviews_without_card(reviews, card_id)[i]).id < (
            #[trigger] reviews_without_card(reviews, card_id)[j]).id,
    decreases reviews.len(),
{
    if reviews.len() > 0 {
        assert(forall|k: int| 0 <= k < reviews.len() - 1 ==> reviews[k] == reviews.drop_last()[k]);
        lemma_reviews_without_card_increasing(reviews.drop_last(), card_id);
        lemma_reviews_without_card(reviews.drop_last(), card_id);
        let rest = reviews_without_card(reviews.drop_last(), card_id);
        assert forall|i: int, j: int|
            0 <= i < j < reviews_without_card(reviews, card_id).len() implies (
        #[trigger] reviews_without_card(reviews, card_id)[i]).id < (
        #[trigger] reviews_without_card(reviews, card_id)[j]).id by {
            if j < rest.len() {
                assert(reviews_without_card(reviews, card_id)[i] == rest[i]);
                assert(reviews_without_card(reviews, card_id)[j] == rest[j]);
            } else {
                assert(reviews_without_card(reviews, card_id)[j] == reviews.last());
                assert(reviews_without_card(reviews, card_id)[i] == rest[i]);
                let w = choose|w: int|
                    0 <= w < reviews.drop_last().len() && reviews.drop_last()[w] == rest[i];
                assert(reviews[w] == rest[i]);
                assert(reviews[w].id < reviews.last().id);
            }
        }
    }
}

impl Store {
    /// Appends one review log entry under a fresh id; the id carried by the
    /// argument is ignored, as under an autoincrement column.  Fails with
    /// `NotFound` when the card is absent and with `PersistenceFailure` when
    /// the id counter is exhausted; a failure leaves the store unchanged.
    pub fn add_review(&mut self, review: Review) -> (r: ReviseResult<()>)
        requires
            old(self).wf(),
        ensures
            final(self).wf(),
            add_review_ok(old(self)@, review.card_id as int) ==> r is Ok && final(self)@
                == add_review_spec(old(self)@, review@),
            !has_card(old(self)@.cards, review.card_id as int) ==> r == ReviseResult::<()>::Err(
                ReviseError::NotFound(review.card_id),
            ) && final(self)@ == old(self)@,
            has_card(old(self)@.cards, review.card_id as int) && old(self)@.next_review_id
                == i64::MAX ==> r == ReviseResult::<()>::Err(ReviseError::PersistenceFailure)
                && final(self)@ == old(self)@,
    {
        proof {
            lemma_card_index(self@.cards, review.card_id as int);
        }
        match self.find_card(review.card_id) {
            None => {
                return Err(ReviseError::NotFound(review.card_id));
            },
            Some(_) => {},
        }
        if self.next_review_id == i64::MAX {
            return Err(ReviseError::PersistenceFailure);
        }
        let ghost pre = self@;
        let entry = Review { id: self.next_review_id, ..review };
        self.reviews.push(entry);
        self.next_review_id = self.next_review_id + 1;
        proof {
            assert(self@.reviews =~= add_review_spec(pre, review@).reviews);
            assert(self@.decks =~= pre.decks);
            assert(self@.cards =~= pre.cards);
            assert(self@ == add_review_spec(pre, review@));
            assert(self.wf());
        }
        Ok(())
    }

    /// The most recently appended review of a card, if any.
    pub fn get_last_review(&self, card_id: ID) -> (r: ReviseResult<Option<Review>>)
        ensures
            r is Ok,
            r matches Ok(opt) ==> match opt {
                Some(rv) => reviews_for(self@.reviews, card_id as int).len() > 0 && rv@
                    == reviews_for(self@.reviews, card_id as int).last(),
                None => reviews_for(self@.reviews, card_id as int).len() == 0,
            },
    {
        let mut found: Option<Review> = None;
        let mut i: usize = 0;
        while i < self.reviews.len()
            invariant
                i <= self.reviews.len(),
                self@.reviews.len() == self.reviews.len(),
                match found {
                    Some(rv) => reviews_for(self@.reviews.subrange(0, i as int), card_id as int)
                        .len() > 0 && rv@ == reviews_for(
                        self@.reviews.subrange(0, i as int),
                        card_id as int,
                    ).last(),
                    None => reviews_for(self@.reviews.subrange(0, i as int), card_id as int).len()
                        == 0,
                },
            decreases self.reviews.len() - i,
        {
            proof {
                assert(self@.reviews.subrange(0, i as int + 1).drop_last() =~= self@.reviews
                    .subrange(0, i as int));
                assert(self@.reviews.subrange(0, i as int + 1).last() == self@.reviews[i as int]);
            }
            if self.reviews[i].card_id == card_id {
                found = Some(self.reviews[i]);
            }
            i = i + 1;
        }
        proof {
            assert(self@.reviews.subrange(0, self@.reviews.len() as int) =~= self@.reviews);
        }
        Ok(found)
    }

    /// All reviews of a card, oldest first.
    pub fn get_reviews(&self, card_id: ID) -> (r: ReviseResult<Vec<Review>>)
        ensures
            r is Ok,
            r matches Ok(v) ==> v.deep_view() == reviews_for(self@.reviews, card_id as int),
    {
        let mut out: Vec<Review> = Vec::new();
        let mut i: usize = 0;
        while i < self.reviews.len()
            invariant
                i <= self.reviews.len(),
                self@.reviews.len() == self.reviews.len(),
                out.deep_view() == reviews_for(self@.reviews.subrange(0, i as int), card_id as int),
            decreases self.reviews.len() - i,
        {
            proof {
                assert(self@.reviews.subrange(0, i as int + 1).drop_last() =~= self@.reviews
                    .subrange(0, i as int));
                assert(self@.reviews.subrange(0, i as int + 1).last() == self@.reviews[i as int]);
            }
            if self.reviews[i].card_id == card_id {
                out.push(self.reviews[i]);
                proof {
                    assert(out.deep_view() =~= reviews_for(
                        self@.reviews.subrange(0, i as int + 1),
                        card_id as int,
                    ));
                }
            }
            i = i + 1;
        }
        proof {
            assert(self@.reviews.subrange(0, self@.reviews.len() as int) =~= self@.reviews);
        }
        Ok(out)
    }

    /// Removes a card and, cascading, its review log entries; a missing id is
    /// a no-op on the tables.
    pub fn remove_card(&mut self, id: ID) -> (r: ReviseResult<()>)
        requires
            old(self).wf(),
        ensures
            final(self).wf(),
            r is Ok,
            final(self)@ == remove_card_spec(old(self)@, id as int),
    {
        let ghost pre = self@;
        let ghost target = remove_card_spec(pre, id as int);
        let mut kept: Vec<CardRecord> = Vec::new();
        let mut i: usize = 0;
        while i < self.cards.len()
            invariant
                i <= self.cards.len(),
                pre == self@,
                pre.cards.len() == self.cards.len(),
                kept.deep_view() == cards_without(pre.cards.subrange(0, i as int), id as int),
            decreases self.cards.len() - i,
        {
            proof {
                assert(pre.cards.subrange(0, i as int + 1).drop_last() =~= pre.cards.subrange(
                    0,
                    i as int,
                ));
                assert(pre.cards.subrange(0, i as int + 1).last() == pre.cards[i as int]);
            }
            if self.cards[i].id != id {
                kept.push(self.cards[i].duplicate());
                proof {
                    assert(kept.deep_view() =~= cards_without(
                        pre.cards.subrange(0, i as int + 1),
                        id as int,
                    ));
                }
            }
            i = i + 1;
        }
        let mut kept_reviews: Vec<Review> = Vec::new();
        let mut j: usize = 0;
        while j < self.reviews.len()
            invariant
                j <= self.reviews.len(),
                pre == self@,
                pre.reviews.len() == self.reviews.len(),
                kept_reviews.deep_view() == reviews_without_card(
                    pre.reviews.subrange(0, j as int),
                    id as int,
                ),
            decreases self.reviews.len() - j,
        {
            proof {
                assert(pre.reviews.subrange(0, j as int + 1).drop_last() =~= pre.reviews.subrange(
                    0,
                    j as int,
                ));
                assert(pre.reviews.subrange(0, j as int + 1).last() == pre.reviews[j as int]);
            }
            if self.reviews[j].card_id != id {
                kept_reviews.push(self.reviews[j]);
                proof {
                    assert(kept_reviews.deep_view() =~= reviews_without_card(
                        pre.reviews.subrange(0, j as int + 1),
                        id as int,
                    ));
                }
            }
            j = j + 1;
        }
        self.cards = kept;
        self.reviews = kept_reviews;
        proof {
            assert(pre.cards.subrange(0, pre.cards.len() as int) =~= pre.cards);
            assert(pre.reviews.subrange(0, pre.reviews.len() as int) =~= pre.reviews);
            assert(self@.cards == target.cards);
            assert(self@.reviews == target.reviews);
            assert(self@.decks =~= target.decks);
            assert(self@ == target);
            lemma_cards_without(pre.cards, id as int);
            lemma_cards_without_distinct(pre.cards, id as int);
            lemma_reviews_without_card(pre.reviews, id as int);
            lemma_reviews_without_card_increasing(pre.reviews, id as int);
            assert forall|k: int|
                0 <= k < self@.cards.len() implies has_deck(
                self@.decks,
                (#[trigger] self@.cards[k]).deck_id,
            ) by {
                let w = choose|w: int| 0 <= w < pre.cards.len() && pre.cards[w] == self@.cards[k];
                assert(has_deck(pre.decks, pre.cards[w].deck_id));
            }
            assert forall|k: int|
                0 <= k < self@.reviews.len() implies has_card(
                self@.cards,
                (#[trigger] self@.reviews[k]).card_id,
            ) by {
                let w = choose|w: int|
                    0 <= w < pre.reviews.len() && pre.reviews[w] == self@.reviews[k];
                assert(has_card(pre.cards, pre.reviews[w].card_id));
                let c = choose|c: int|
                    0 <= c < pre.cards.len() && (#[trigger] pre.cards[c]).id
                        == pre.reviews[w].card_id;
                assert(pre.cards[c].id != id as int);
                assert(cards_without(pre.cards, id as int).contains(pre.cards[c]));
                let v = choose|v: int|
                    0 <= v < self@.cards.len() && self@.cards[v] == pre.cards[c];
                assert(self@.cards[v].id == self@.reviews[k].card_id);
            }
            assert forall|k: int|
                0 <= k < self@.cards.len() implies (#[trigger] self@.cards[k]).id
                < self@.next_card_id by {
                let w = choose|w: int| 0 <= w < pre.cards.len() && pre.cards[w] == self@.cards[k];
            }
            assert forall|k: int|
                0 <= k < self@.reviews.len() implies (#[trigger] self@.reviews[k]).id
                < self@.next_review_id by {
                let w = choose|w: int|
                    0 <= w < pre.reviews.len() && pre.reviews[w] == self@.reviews[k];
            }
            assert(self.wf());
        }
        Ok(())
    }
}

/// Spec-level image of an optional id argument.
pub open spec fn id_opt_view(o: Option<ID>) -> Option<int> {
    match o {
        Some(d) => Some(d as int),
        None => None,
    }
}

/// Whether a card row is selected by a listing filter: suspended listings
/// return exactly the suspended cards, ignoring the deck filter and the `all`
/// flag; otherwise non-suspended cards, restricted to due ones unless `all`,
/// and to one deck when a deck id is given.
pub open spec fn summary_selected(
    c: CardV,
    deck_id: Option<int>,
    all: bool,
    is_suspended: bool,
    now: int,
) -> bool {
    if is_suspended {
        c.suspended
    } else {
        &&& !c.suspended
        &&& (all || c.next_show_date <= now)
        &&& (match deck_id {
            Some(d) => c.deck_id == d,
            None => true,
        })
    }
}

/// Projection of a card row for list views.
pub open spec fn summary_of(c: CardV, decks: Seq<DeckV>) -> CardSummaryV {
    CardSummaryV {
        id: c.id,
        deck: deck_name_of(decks, c.deck_id),
        title: c.title,
        next_show_date: c.next_show_date,
        created_at: c.created_at,
    }
}

/// The selected card rows, in table order, projected to summaries.
pub open spec fn summaries_of(
    cards: Seq<CardV>,
    decks: Seq<DeckV>,
    deck_id: Option<int>,
    all: bool,
    is_suspended: bool,
    now: int,
) -> Seq<CardSummaryV>
    decreases cards.len(),
{
    if cards.len() == 0 {
        Seq::empty()
    } else {
        let rest = summaries_of(cards.drop_last(), decks, deck_id, all, is_suspended, now);
        if summary_selected(cards.last(), deck_id, all, is_suspended, now) {
            rest.push(summary_of(cards.last(), decks))
        } else {
            rest
        }
    }
}

/// The decks that at least one card references, in listing order.
pub open spec fn live_decks(decks: Seq<DeckV>, cards: Seq<CardV>) -> Seq<DeckV>
    decreases decks.len(),
{
    if decks.len() == 0 {
        Seq::empty()
    } else {
        let rest = live_decks(decks.drop_last(), cards);
        if deck_used(cards, decks.last().id) {
            rest.push(decks.last())
        } else {
            rest
        }
    }
}

/// What `remove_orphan_decks` leaves behind.
pub open spec fn sweep_spec(s: StoreV) -> StoreV {
    StoreV { decks: live_decks(s.decks, s.cards), ..s }
}

pub proof fn lemma_live_decks(decks: Seq<DeckV>, cards: Seq<CardV>)
    ensures
        live_decks(decks, cards).len() <= decks.len(),
        forall|k: int|
            0 <= k < live_decks(decks, cards).len() ==> deck_used(
                cards,
                (#[trigger] live_decks(decks, cards)[k]).id,
            ) && decks.contains(live_decks(decks, cards)[k]),
        forall|k: int|
            0 <= k < decks.len() && deck_used(cards, (#[trigger] decks[k]).id) ==> live_decks(
                decks,
                cards,
            ).contains(decks[k]),
    decreases decks.len(),
{
    if decks.len() > 0 {
        lemma_live_decks(decks.drop_last(), cards);
        let rest = live_decks(decks.drop_last(), cards);
        assert(forall|k: int| 0 <= k < decks.len() - 1 ==> decks[k] == decks.drop_last()[k]);
        assert forall|k: int|
            0 <= k < live_decks(decks, cards).len() implies deck_used(
            cards,
            (#[trigger] live_decks(decks, cards)[k]).id,
        ) && decks.contains(live_decks(decks, cards)[k]) by {
            if k < rest.len() {
                assert(live_decks(decks, cards)[k] == rest[k]);
                let w = choose|w: int|
                    0 <= w < decks.drop_last().len() && decks.drop_last()[w] == rest[k];
                assert(decks[w] == rest[k]);
            } else {
                assert(live_decks(decks, cards)[k] == decks.last());
                assert(decks[decks.len() - 1] == decks.last());
            }
        }
        assert forall|k: int|
            0 <= k < decks.len() && deck_used(cards, (#[trigger] decks[k]).id) implies live_decks(
            decks,
            cards,
        ).contains(decks[k]) by {
            if k < decks.len() - 1 {
                assert(decks.drop_last().contains(decks[k])) by {
                    assert(decks.drop_last()[k] == decks[k]);
                }
                let w = choose|w: int| 0 <= w < rest.len() && rest[w] == decks[k];
                assert(live_decks(decks, cards)[w] == decks[k]);
            } else {
                assert(live_decks(decks, cards).last() == decks[k]);
            }
        }
    }
}

proof fn lemma_live_decks_distinct(decks: Seq<DeckV>, cards: Seq<CardV>)
    requires
        forall|i: int, j: int|
            0 <= i < j < decks.len() ==> (#[trigger] decks[i]).id != (#[trigger] decks[j]).id,
        forall|i: int, j: int|
            0 <= i < j < decks.len() ==> (#[trigger] decks[i]).name != (#[trigger] decks[j]).name,
    ensures
        forall|i: int, j: int|
            0 <= i < j < live_decks(decks, cards).len() ==> (#[trigger] live_decks(
                decks,
                cards,
            )[i]).id != (#[trigger] live_decks(decks, cards)[j]).id,
        forall|i: int, j: int|
            0 <= i < j < live_decks(decks, cards).len() ==> (#[trigger] live_decks(
                decks,
                cards,
            )[i]).name != (#[trigger] live_decks(decks, cards)[j]).name,
    decreases decks.len(),
{
    if decks.len() > 0 {
        assert(forall|k: int| 0 <= k < decks.len() - 1 ==> decks[k] == decks.drop_last()[k]);
        lemma_live_decks_distinct(decks.drop_last(), cards);
        lemma_live_decks(decks.drop_last(), cards);
        let rest = live_decks(decks.drop_last(), cards);
        assert forall|i: int, j: int|
            0 <= i < j < live_decks(decks, cards).len() implies (#[trigger] live_decks(
            decks,
            cards,
        )[i]).id != (#[trigger] live_decks(decks, cards)[j]).id && (#[trigger] live_decks(
            decks,
            cards,
        )[i]).name != (#[trigger] live_decks(decks, cards)[j]).name by {
            if j < rest.len() {
                assert(live_decks(decks, cards)[i] == rest[i]);
                assert(live_decks(decks, cards)[j] == rest[j]);
            } else {
                assert(live_decks(decks, cards)[j] == decks.last());
                assert(live_decks(decks, cards)[i] == rest[i]);
                let w = choose|w: int|
                    0 <= w < decks.drop_last().len() && decks.drop_last()[w] == rest[i];
                assert(decks[w] == rest[i]);
                assert(decks[w].id != decks.last().id);
                assert(decks[w].name != decks.last().name);
            }
        }
    }
}

impl Store {
    /// Rewrites title, deck and description of one card.  Fails with
    /// `NotFound` on a missing card id (as the underlying storage reports a
    /// zero-row update) or on a missing target deck; a failure leaves the
    /// store unchanged.
    pub fn update_card_details(&mut self, id: ID, title: &str, deck_id: ID, desc: &str) -> (r:
        ReviseResult<()>)
        requires
            old(self).wf(),
        ensures
            final(self).wf(),
            !has_card(old(self)@.cards, id as int) ==> r == ReviseResult::<()>::Err(
                ReviseError::NotFound(id),
            ) && final(self)@ == old(self)@,
            has_card(old(self)@.cards, id as int) && !has_deck(old(self)@.decks, deck_id as int)
                ==> r == ReviseResult::<()>::Err(ReviseError::NotFound(deck_id)) && final(self)@
                == old(self)@,
            has_card(old(self)@.cards, id as int) && has_deck(old(self)@.decks, deck_id as int)
                ==> r is Ok && final(self)@ == update_details_spec(
                old(self)@,
                id as int,
                title@,
                deck_id as int,
                desc@,
            ),
    {
        proof {
            lemma_card_index(self@.cards, id as int);
            lemma_deck_index(self@.decks, deck_id as int);
        }
        match self.find_card(id) {
            None => {
                return Err(ReviseError::NotFound(id));
            },
            Some(_) => {},
        }
        match self.find_deck(deck_id) {
            None => {
                return Err(ReviseError::NotFound(deck_id));
            },
            Some(_) => {},
        }
        let ghost pre = self@;
        let ghost target = update_details_spec(pre, id as int, title@, deck_id as int, desc@);
        let mut out: Vec<CardRecord> = Vec::new();
        let mut i: usize = 0;
        while i < self.cards.len()
            invariant
                i <= self.cards.len(),
                pre == self@,
                pre.cards.len() == self.cards.len(),
                target == update_details_spec(pre, id as int, title@, deck_id as int, desc@),
                out@.len() == i,
                forall|k: int| 0 <= k < i ==> (#[trigger] out@[k]).deep_view() == target.cards[k],
            decreases self.cards.len() - i,
        {
            let c = &self.cards[i];
            if c.id == id {
                out.push(
                    CardRecord {
                        id: c.id,
                        deck_id,
                        title: title.to_owned(),
                        desc: desc.to_owned(),
                        next_show_date: c.next_show_date,
                        created_at: c.created_at,
                        suspended: c.suspended,
                    },
                );
            } else {
                out.push(c.duplicate());
            }
            proof {
                assert(out@[i as int].deep_view() == target.cards[i as int]);
            }
            i = i + 1;
        }
        self.cards = out;
        proof {
            assert(self@.cards =~= target.cards);
            assert(self@.decks =~= target.decks);
            assert(self@.reviews =~= target.reviews);
            assert(self@ == target);
            lemma_has_card_pointwise(pre.cards, self@.cards);
            assert(self.wf());
        }
        Ok(())
    }

    /// Whether any card references the given deck.
    fn deck_used_exec(&self, deck_id: ID) -> (r: bool)
        ensures
            r == deck_used(self@.cards, deck_id as int),
    {
        let mut i: usize = 0;
        while i < self.cards.len()
            invariant
                i <= self.cards.len(),
                self@.cards.len() == self.cards.len(),
                forall|k: int| 0 <= k < i ==> (#[trigger] self@.cards[k]).deck_id != deck_id as int,
            decreases self.cards.len() - i,
        {
            if self.cards[i].deck_id == deck_id {
                proof {
                    assert(self@.cards[i as int].deck_id == deck_id as int);
                }
                return true;
            }
            i = i + 1;
        }
        false
    }

    /// Deletes exactly the decks that no card references; cards and reviews
    /// are untouched.
    pub fn remove_orphan_decks(&mut self) -> (r: ReviseResult<()>)
        requires
            old(self).wf(),
        ensures
            final(self).wf(),
            r is Ok,
            final(self)@ == sweep_spec(old(self)@),
    {
        let ghost pre = self@;
        let ghost target = sweep_spec(pre);
        let mut kept: Vec<Deck> = Vec::new();
        let mut i: usize = 0;
        while i < self.decks.len()
            invariant
                i <= self.decks.len(),
                pre == self@,
                pre.decks.len() == self.decks.len(),
                kept.deep_view() == live_decks(pre.decks.subrange(0, i as int), pre.cards),
            decreases self.decks.len() - i,
        {
            proof {
                assert(pre.decks.subrange(0, i as int + 1).drop_last() =~= pre.decks.subrange(
                    0,
                    i as int,
                ));
                assert(pre.decks.subrange(0, i as int + 1).last() == pre.decks[i as int]);
            }
            let d = &self.decks[i];
            if self.deck_used_exec(d.id) {
                kept.push(Deck { id: d.id, name: d.name.clone() });
                proof {
                    assert(kept.deep_view() =~= live_decks(
                        pre.decks.subrange(0, i as int + 1),
                        pre.cards,
                    ));
                }
            }
            i = i + 1;
        }
        self.decks = kept;
        proof {
            assert(pre.decks.subrange(0, pre.decks.len() as int) =~= pre.decks);
            assert(self@.decks == target.decks);
            assert(self@.cards =~= target.cards);
            assert(self@.reviews =~= target.reviews);
            assert(self@ == target);
            lemma_live_decks(pre.decks, pre.cards);
            lemma_live_decks_distinct(pre.decks, pre.cards);
            assert forall|k: int|
                0 <= k < self@.cards.len() implies has_deck(
                self@.decks,
                (#[trigger] self@.cards[k]).deck_id,
            ) by {
                assert(has_deck(pre.decks, self@.cards[k].deck_id));
                let w = choose|w: int|
                    0 <= w < pre.decks.len() && (#[trigger] pre.decks[w]).id
                        == self@.cards[k].deck_id;
                assert(deck_used(pre.cards, pre.decks[w].id));
                assert(live_decks(pre.decks, pre.cards).contains(pre.decks[w]));
                let v = choose|v: int|
                    0 <= v < self@.decks.len() && self@.decks[v] == pre.decks[w];
                assert(self@.decks[v].id == self@.cards[k].deck_id);
            }
            assert forall|k: int|
                0 <= k < self@.decks.len() implies (#[trigger] self@.decks[k]).id
                < self@.next_deck_id by {
                let w = choose|w: int| 0 <= w < pre.decks.len() && pre.decks[w] == self@.decks[k];
            }
            assert(self.wf());
        }
        Ok(())
    }

    /// The summaries selected by the given listing filter, in table order.
    pub fn list_card_summaries(
        &self,
        deck_id: Option<ID>,
        all: bool,
        is_suspended: bool,
        now: i64,
    ) -> (r: ReviseResult<Vec<CardSummary>>)
        requires
            self.wf(),
        ensures
            r is Ok,
            r matches Ok(v) ==> v.deep_view() == summaries_of(
                self@.cards,
                self@.decks,
                id_opt_view(deck_id),
                all,
                is_suspended,
                now as int,
            ),
    {
        let ghost dv = id_opt_view(deck_id);
        let mut out: Vec<CardSummary> = Vec::new();
        let mut i: usize = 0;
        while i < self.cards.len()
            invariant
                self.wf(),
                i <= self.cards.len(),
                self@.cards.len() == self.cards.len(),
                dv == id_opt_view(deck_id),
                out.deep_view() == summaries_of(
                    self@.cards.subrange(0, i as int),
                    self@.decks,
                    dv,
                    all,
                    is_suspended,
                    now as int,
                ),
            decreases self.cards.len() - i,
        {
            proof {
                assert(self@.cards.subrange(0, i as int + 1).drop_last() =~= self@.cards.subrange(
                    0,
                    i as int,
                ));
                assert(self@.cards.subrange(0, i as int + 1).last() == self@.cards[i as int]);
            }
            let c = &self.cards[i];
            let selected = if is_suspended {
                c.suspended
            } else {
                let deck_ok = match deck_id {
                    Some(d) => c.deck_id == d,
                    None => true,
                };
                !c.suspended && (all || c.next_show_date <= now) && deck_ok
            };
            if selected {
                proof {
                    lemma_deck_index(self@.decks, c.deck_id as int);
                    if deck_index(self@.decks, c.deck_id as int) == -1 {
                        assert(has_deck(self@.decks, self@.cards[i as int].deck_id));
                        let k = choose|k: int|
                            0 <= k < self@.decks.len() && (#[trigger] self@.decks[k]).id
                                == self@.cards[i as int].deck_id;
                        assert(false);
                    }
                }
                let j = match self.find_deck(c.deck_id) {
                    None => {
                        return Err(ReviseError::NotFound(c.deck_id));
                    },
                    Some(j) => j,
                };
                out.push(
                    CardSummary {
                        id: c.id,
                        deck: self.decks[j].name.clone(),
                        title: c.title.clone(),
                        next_show_date: c.next_show_date,
                        created_at: c.created_at,
                    },
                );
                proof {
                    assert(out@[out@.len() - 1].deep_view() == summary_of(
                        self@.cards[i as int],
                        self@.decks,
                    ));
                    assert(out.deep_view() =~= summaries_of(
                        self@.cards.subrange(0, i as int + 1),
                        self@.decks,
                        dv,
                        all,
                        is_suspended,
                        now as int,
                    ));
                }
            }
            i = i + 1;
        }
        proof {
            assert(self@.cards.subrange(0, self@.cards.len() as int) =~= self@.cards);
        }
        Ok(out)
    }
}

/// The store after resolving a deck name: unchanged when the name exists,
/// otherwise with the deck created.
pub open spec fn resolve_deck_spec(s: StoreV, name: Seq<char>) -> StoreV {
    if has_deck_named(s.decks, name) {
        s
    } else {
        add_deck_spec(s, name)
    }
}

/// The id that resolving a deck name yields.
pub open spec fn resolved_deck_id(s: StoreV, name: Seq<char>) -> int {
    if has_deck_named(s.decks, name) {
        s.decks[deck_index_by_name(s.decks, name)].id
    } else {
        s.next_deck_id
    }
}

/// Resolving succeeds whenever the name exists or an id can be allocated.
pub open spec fn resolve_deck_ok(s: StoreV, name: Seq<char>) -> bool {
    has_deck_named(s.decks, name) || s.next_deck_id < i64::MAX
}

/// The deck table without one deck.
pub open spec fn decks_without(decks: Seq<DeckV>, id: int) -> Seq<DeckV>
    decreases decks.len(),
{
    if decks.len() == 0 {
        Seq::empty()
    } else {
        let rest = decks_without(decks.drop_last(), id);
        if decks.last().id == id {
            rest
        } else {
            rest.push(decks.last())
        }
    }
}

/// The card table without the cards of one deck.
pub open spec fn cards_without_deck(cards: Seq<CardV>, deck_id: int) -> Seq<CardV>
    decreases cards.len(),
{
    if cards.len() == 0 {
        Seq::empty()
    } else {
        let rest = cards_without_deck(cards.drop_last(), deck_id);
        if cards.last().deck_id == deck_id {
            rest
        } else {
            rest.push(cards.last())
        }
    }
}

/// The review log restricted to entries whose card is still present.
pub open spec fn reviews_of_cards(reviews: Seq<ReviewV>, cards: Seq<CardV>) -> Seq<ReviewV>
    decreases reviews.len(),
{
    if reviews.len() == 0 {
        Seq::empty()
    } else {
        let rest = reviews_of_cards(reviews.drop_last(), cards);
        if has_card(cards, reviews.last().card_id) {
            rest.push(reviews.last())
        } else {
            rest
        }
    }
}

/// Deleting a deck removes its row, cascades to its cards, and keeps exactly
/// the reviews of surviving cards.
pub open spec fn delete_deck_spec(s: StoreV, id: int) -> StoreV {
    StoreV {
        decks: decks_without(s.decks, id),
        cards: cards_without_deck(s.cards, id),
        reviews: reviews_of_cards(s.reviews, cards_without_deck(s.cards, id)),
        ..s
    }
}

pub proof fn lemma_decks_without(decks: Seq<DeckV>, id: int)
    ensures
        decks_without(decks, id).len() <= decks.len(),
        forall|k: int|
            0 <= k < decks_without(decks, id).len() ==> (#[trigger] decks_without(decks, id)[k]).id
                != id && decks.contains(decks_without(decks, id)[k]),
        forall|k: int|
            0 <= k < decks.len() && (#[trigger] decks[k]).id != id ==> decks_without(
                decks,
                id,
            ).contains(decks[k]),
    decreases decks.len(),
{
    if decks.len() > 0 {
        lemma_decks_without(decks.drop_last(), id);
        let rest = decks_without(decks.drop_last(), id);
        assert(forall|k: int| 0 <= k < decks.len() - 1 ==> decks[k] == decks.drop_last()[k]);
        assert forall|k: int|
            0 <= k < decks_without(decks, id).len() implies (#[trigger] decks_without(
            decks,
            id,
        )[k]).id != id && decks.contains(decks_without(decks, id)[k]) by {
            if k < rest.len() {
                assert(decks_without(decks, id)[k] == rest[k]);
                let w = choose|w: int|
                    0 <= w < decks.drop_last().len() && decks.drop_last()[w] == rest[k];
                assert(decks[w] == rest[k]);
            } else {
                assert(decks_without(decks, id)[k] == decks.last());
                assert(decks[decks.len() - 1] == decks.last());
            }
        }
        assert forall|k: int|
            0 <= k < decks.len() && (#[trigger] decks[k]).id != id implies decks_without(
            decks,
            id,
        ).contains(decks[k]) by {
            if k < decks.len() - 1 {
                assert(decks.drop_last().contains(decks[k])) by {
                    assert(decks.drop_last()[k] == decks[k]);
                }
                let w = choose|w: int| 0 <= w < rest.len() && rest[w] == decks[k];
                assert(decks_without(decks, id)[w] == decks[k]);
            } else {
                assert(decks_without(decks, id).last() == decks[k]);
            }
        }
    }
}

proof fn lemma_decks_without_distinct(decks: Seq<DeckV>, id: int)
    requires
        forall|i: int, j: int|
            0 <= i < j < decks.len() ==> (#[trigger] decks[i]).id != (#[trigger] decks[j]).id,
        forall|i: int, j: int|
            0 <= i < j < decks.len() ==> (#[trigger] decks[i]).name != (#[trigger] decks[j]).name,
    ensures
        forall|i: int, j: int|
            0 <= i < j < decks_without(decks, id).len() ==> (#[trigger] decks_without(
                decks,
                id,
            )[i]).id != (#[trigger] decks_without(decks, id)[j]).id,
        forall|i: int, j: int|
            0 <= i < j < decks_without(decks, id).len() ==> (#[trigger] decks_without(
                decks,
                id,
            )[i]).name != (#[trigger] decks_without(decks, id)[j]).name,
    decreases decks.len(),
{
    if decks.len() > 0 {
        assert(forall|k: int| 0 <= k < decks.len() - 1 ==> decks[k] == decks.drop_last()[k]);
        lemma_decks_without_distinct(decks.drop_last(), id);
        lemma_decks_without(decks.drop_last(), id);
        let rest = decks_without(decks.drop_last(), id);
        assert forall|i: int, j: int|
            0 <= i < j < decks_without(decks, id).len() implies (#[trigger] decks_without(
            decks,
            id,
        )[i]).id != (#[trigger] decks_without(decks, id)[j]).id && (#[trigger] decks_without(
            decks,
            id,
        )[i]).name != (#[trigger] decks_without(decks, id)[j]).name by {
            if j < rest.len() {
                assert(decks_without(decks, id)[i] == rest[i]);
                assert(decks_without(decks, id)[j] == rest[j]);
            } else {
                assert(decks_without(decks, id)[j] == decks.last());
                assert(decks_without(decks, id)[i] == rest[i]);
                let w = choose|w: int|
                    0 <= w < decks.drop_last().len() && decks.drop_last()[w] == rest[i];
                assert(decks[w] == rest[i]);
                assert(decks[w].id != decks.last().id);
                assert(decks[w].name != decks.last().name);
            }
        }
    }
}

pub proof fn lemma_cards_without_deck(cards: Seq<CardV>, deck_id: int)
    ensures
        cards_without_deck(cards, deck_id).len() <= cards.len(),
        forall|k: int|
            0 <= k < cards_without_deck(cards, deck_id).len() ==> (#[trigger] cards_without_deck(
                cards,
                deck_id,
            )[k]).deck_id != deck_id && cards.contains(cards_without_deck(cards, deck_id)[k]),
        forall|k: int|
            0 <= k < cards.len() && (#[trigger] cards[k]).deck_id != deck_id
                ==> cards_without_deck(cards, deck_id).contains(cards[k]),
    decreases cards.len(),
{
    if cards.len() > 0 {
        lemma_cards_without_deck(cards.drop_last(), deck_id);
        let rest = cards_without_deck(cards.drop_last(), deck_id);
        assert(forall|k: int| 0 <= k < cards.len() - 1 ==> cards[k] == cards.drop_last()[k]);
        assert forall|k: int|
            0 <= k < cards_without_deck(cards, deck_id).len() implies (
        #[trigger] cards_without_deck(cards, deck_id)[k]).deck_id != deck_id && cards.contains(
            cards_without_deck(cards, deck_id)[k],
        ) by {
            if k < rest.len() {
                assert(cards_without_deck(cards, deck_id)[k] == rest[k]);
                let w = choose|w: int|
                    0 <= w < cards.drop_last().len() && cards.drop_last()[w] == rest[k];
                assert(cards[w] == rest[k]);
            } else {
                assert(cards_without_deck(cards, deck_id)[k] == cards.last());
                assert(cards[cards.len() - 1] == cards.last());
            }
        }
        assert forall|k: int|
            0 <= k < cards.len() && (#[trigger] cards[k]).deck_id
                != deck_id implies cards_without_deck(cards, deck_id).contains(cards[k]) by {
            if k < cards.len() - 1 {
                assert(cards.drop_last().contains(cards[k])) by {
                    assert(cards.drop_last()[k] == cards[k]);
                }
                let w = choose|w: int| 0 <= w < rest.len() && rest[w] == cards[k];
                assert(cards_without_deck(cards, deck_id)[w] == cards[k]);
            } else {
                assert(cards_without_deck(cards, deck_id).last() == cards[k]);
            }
        }
    }
}

proof fn lemma_cards_without_deck_distinct(cards: Seq<CardV>, deck_id: int)
    requires
        forall|i: int, j: int|
            0 <= i < j < cards.len() ==> (#[trigger] cards[i]).id != (#[trigger] cards[j]).id,
    ensures
        forall|i: int, j: int|
            0 <= i < j < cards_without_deck(cards, deck_id).len() ==> (
            #[trigger] cards_without_deck(cards, deck_id)[i]).id != (#[trigger] cards_without_deck(
                cards,
                deck_id,
            )[j]).id,
    decreases cards.len(),
{
    if cards.len() > 0 {
        assert(forall|k: int| 0 <= k < cards.len() - 1 ==> cards[k] == cards.drop_last()[k]);
        lemma_cards_without_deck_distinct(cards.drop_last(), deck_id);
        lemma_cards_without_deck(cards.drop_last(), deck_id);
        let rest = cards_without_deck(cards.drop_last(), deck_id);
        assert forall|i: int, j: int|
            0 <= i < j < cards_without_deck(cards, deck_id).len() implies (
        #[trigger] cards_without_deck(cards, deck_id)[i]).id != (#[trigger] cards_without_deck(
            cards,
            deck_id,
        )[j]).id by {
            if j < rest.len() {
                assert(cards_without_deck(cards, deck_id)[i] == rest[i]);
                assert(cards_without_deck(cards, deck_id)[j] == rest[j]);
            } else {
                assert(cards_without_deck(cards, deck_id)[j] == cards.last());
                assert(cards_without_deck(cards, deck_id)[i] == rest[i]);
                let w = choose|w: int|
                    0 <= w < cards.drop_last().len() && cards.drop_last()[w] == rest[i];
                assert(cards[w] == rest[i]);
                assert(cards[w].id != cards.last().id);
            }
        }
    }
}

pub proof fn lemma_reviews_of_cards(reviews: Seq<ReviewV>, cards: Seq<CardV>)
    ensures
        reviews_of_cards(reviews, cards).len() <= reviews.len(),
        forall|k: int|
            0 <= k < reviews_of_cards(reviews, cards).len() ==> has_card(
                cards,
                (#[trigger] reviews_of_cards(reviews, cards)[k]).card_id,
            ) && reviews.contains(reviews_of_cards(reviews, cards)[k]),
        forall|k: int|
            0 <= k < reviews.len() && has_card(cards, (#[trigger] reviews[k]).card_id)
                ==> reviews_of_cards(reviews, cards).contains(reviews[k]),
    decreases reviews.len(),
{
    if reviews.len() > 0 {
        lemma_reviews_of_cards(reviews.drop_last(), cards);
        let rest = reviews_of_cards(reviews.drop_last(), cards);
        assert(forall|k: int| 0 <= k < reviews.len() - 1 ==> reviews[k] == reviews.drop_last()[k]);
        assert forall|k: int|
            0 <= k < reviews_of_cards(reviews, cards).len() implies has_card(
            cards,
            (#[trigger] reviews_of_cards(reviews, cards)[k]).card_id,
        ) && reviews.contains(reviews_of_cards(reviews, cards)[k]) by {
            if k < rest.len() {
                assert(reviews_of_cards(reviews, cards)[k] == rest[k]);
                let w = choose|w: int|
                    0 <= w < reviews.drop_last().len() && reviews.drop_last()[w] == rest[k];
                assert(reviews[w] == rest[k]);
            } else {
                assert(reviews_of_cards(reviews, cards)[k] == reviews.last());
                assert(reviews[reviews.len() - 1] == reviews.last());
            }
        }
        assert forall|k: int|
            0 <= k < reviews.len() && has_card(
                cards,
                (#[trigger] reviews[k]).card_id,
            ) implies reviews_of_cards(reviews, cards).contains(reviews[k]) by {
            if k < reviews.len() - 1 {
                assert(reviews.drop_last().contains(reviews[k])) by {
                    assert(reviews.drop_last()[k] == reviews[k]);
                }
                let w = choose|w: int| 0 <= w < rest.len() && rest[w] == reviews[k];
                assert(reviews_of_cards(reviews, cards)[w] == reviews[k]);
            } else {
                assert(reviews_of_cards(reviews, cards).last() == reviews[k]);
            }
        }
    }
}

proof fn lemma_reviews_of_cards_increasing(reviews: Seq<ReviewV>, cards: Seq<CardV>)
    requires
        forall|i: int, j: int|
            0 <= i < j < reviews.len() ==> (#[trigger] reviews[i]).id < (#[trigger] reviews[j]).id,
    ensures
        forall|i: int, j: int|
            0 <= i < j < reviews_of_cards(reviews, cards).len() ==> (#[trigger] reviews_of_cards(
                reviews,
                cards,
            )[i]).id < (#[trigger] reviews_of_cards(reviews, cards)[j]).id,
    decreases reviews.len(),
{
    if reviews.len() > 0 {
        assert(forall|k: int| 0 <= k < reviews.len() - 1 ==> reviews[k] == reviews.drop_last()[k]);
        lemma_reviews_of_cards_increasing(reviews.drop_last(), cards);
        lemma_reviews_of_cards(reviews.drop_last(), cards);
        let rest = reviews_of_cards(reviews.drop_last(), cards);
        assert forall|i: int, j: int|
            0 <= i < j < reviews_of_cards(reviews, cards).len() implies (
        #[trigger] reviews_of_cards(reviews, cards)[i]).id < (#[trigger] reviews_of_cards(
            reviews,
            cards,
        )[j]).id by {
            if j < rest.len() {
                assert(reviews_of_cards(reviews, cards)[i] == rest[i]);
                assert(reviews_of_cards(reviews, cards)[j] == rest[j]);
            } else {
                assert(reviews_of_cards(reviews, cards)[j] == reviews.last());
                assert(reviews_of_cards(reviews, cards)[i] == rest[i]);
                let w = choose|w: int|
                    0 <= w < reviews.drop_last().len() && reviews.drop_last()[w] == rest[i];
                assert(reviews[w] == rest[i]);
                assert(reviews[w].id < reviews.last().id);
            }
        }
    }
}

/// Whether a card table held in a plain vector contains the given id.
fn card_in(cards: &Vec<CardRecord>, id: ID) -> (r: bool)
    ensures
        r == has_card(cards.deep_view(), id as int),
{
    let mut i: usize = 0;
    while i < cards.len()
        invariant
            i <= cards.len(),
            forall|k: int| 0 <= k < i ==> (#[trigger] cards.deep_view()[k]).id != id as int,
        decreases cards.len() - i,
    {
        if cards[i].id == id {
            proof {
                assert(cards.deep_view()[i as int].id == id as int);
            }
            return true;
        }
        i = i + 1;
    }
    false
}

impl Store {
    /// The id of the deck with the given name, creating the deck when the
    /// name is absent.  Fails only when a deck would have to be created and
    /// the id counter is exhausted; a failure leaves the store unchanged.
    pub fn resolve_deck(&mut self, name: &str) -> (r: ReviseResult<ID>)
        requires
            old(self).wf(),
        ensures
            final(self).wf(),
            resolve_deck_ok(old(self)@, name@) ==> (r matches Ok(id) && id as int
                == resolved_deck_id(old(self)@, name@) && final(self)@ == resolve_deck_spec(
                old(self)@,
                name@,
            ) && has_deck(final(self)@.decks, id as int) && has_deck_named(
                final(self)@.decks,
                name@,
            )),
            !resolve_deck_ok(old(self)@, name@) ==> r == ReviseResult::<ID>::Err(
                ReviseError::PersistenceFailure,
            ) && final(self)@ == old(self)@,
    {
        proof {
            lemma_deck_index_by_name(self@.decks, name@);
        }
        let ghost pre = self@;
        match self.find_deck_by_name(name) {
            Some(i) => {
                let id = self.decks[i].id;
                proof {
                    assert(self@.decks[i as int].name == name@);
                    assert(has_deck_named(pre.decks, name@));
                    assert(self@.decks[i as int].id == id as int);
                }
                Ok(id)
            },
            None => {
                match self.add_deck(name) {
                    Err(e) => {
                        return Err(e);
                    },
                    Ok(_) => {},
                }
                proof {
                    lemma_deck_index_by_name(self@.decks, name@);
                    let idx = deck_index_by_name(self@.decks, name@);
                    assert(self@.decks[pre.decks.len() as int].name == name@);
                    assert(idx >= 0);
                    if idx < pre.decks.len() {
                        assert(self@.decks[idx] == pre.decks[idx]);
                        assert(has_deck_named(pre.decks, name@));
                    }
                    assert(idx == pre.decks.len());
                }
                match self.find_deck_by_name(name) {
                    Some(i) => {
                        let id = self.decks[i].id;
                        proof {
                            assert(self@.decks[i as int].id == pre.next_deck_id);
                            assert(has_deck(self@.decks, id as int)) by {
                                assert(self@.decks[i as int].id == id as int);
                            }
                        }
                        Ok(id)
                    },
                    None => {
                        proof {
                            assert(false);
                        }
                        Err(ReviseError::PersistenceFailure)
                    },
                }
            },
        }
    }

    /// Deletes a deck outright, cascading to its cards and their reviews.
    /// Fails with `NotFound` when the deck is absent, leaving the store
    /// unchanged.
    pub fn delete_deck(&mut self, id: ID) -> (r: ReviseResult<()>)
        requires
            old(self).wf(),
        ensures
            final(self).wf(),
            !has_deck(old(self)@.decks, id as int) ==> r == ReviseResult::<()>::Err(
                ReviseError::NotFound(id),
            ) && final(self)@ == old(self)@,
            has_deck(old(self)@.decks, id as int) ==> r is Ok && final(self)@ == delete_deck_spec(
                old(self)@,
                id as int,
            ),
    {
        proof {
            lemma_deck_index(self@.decks, id as int);
        }
        match self.find_deck(id) {
            None => {
                return Err(ReviseError::NotFound(id));
            },
            Some(i) => {
                proof {
                    assert(self@.decks[i as int].id == id as int);
                }
            },
        }
        let ghost pre = self@;
        let ghost target = delete_deck_spec(pre, id as int);
        let mut kept_decks: Vec<Deck> = Vec::new();
        let mut i: usize = 0;
        while i < self.decks.len()
            invariant
                i <= self.decks.len(),
                pre == self@,
                pre.decks.len() == self.decks.len(),
                kept_decks.deep_view() == decks_without(pre.decks.subrange(0, i as int), id as int),
            decreases self.decks.len() - i,
        {
            proof {
                assert(pre.decks.subrange(0, i as int + 1).drop_last() =~= pre.decks.subrange(
                    0,
                    i as int,
                ));
                assert(pre.decks.subrange(0, i as int + 1).last() == pre.decks[i as int]);
            }
            let d = &self.decks[i];
            if d.id != id {
                kept_decks.push(Deck { id: d.id, name: d.name.clone() });
                proof {
                    assert(kept_decks.deep_view() =~= decks_without(
                        pre.decks.subrange(0, i as int + 1),
                        id as int,
                    ));
                }
            }
            i = i + 1;
        }
        let mut kept_cards: Vec<CardRecord> = Vec::new();
        let mut j: usize = 0;
        while j < self.cards.len()
            invariant
                j <= self.cards.len(),
                pre == self@,
                pre.cards.len() == self.cards.len(),
                kept_cards.deep_view() == cards_without_deck(
                    pre.cards.subrange(0, j as int),
                    id as int,
                ),
            decreases self.cards.len() - j,
        {
            proof {
                assert(pre.cards.subrange(0, j as int + 1).drop_last() =~= pre.cards.subrange(
                    0,
                    j as int,
                ));
                assert(pre.cards.subrange(0, j as int + 1).last() == pre.cards[j as int]);
            }
            if self.cards[j].deck_id != id {
                kept_cards.push(self.cards[j].duplicate());
                proof {
                    assert(kept_cards.deep_view() =~= cards_without_deck(
                        pre.cards.subrange(0, j as int + 1),
                        id as int,
                    ));
                }
            }
            j = j + 1;
        }
        proof {
            assert(pre.cards.subrange(0, pre.cards.len() as int) =~= pre.cards);
            assert(kept_cards.deep_view() == target.cards);
        }
        let mut kept_reviews: Vec<Review> = Vec::new();
        let mut k: usize = 0;
        while k < self.reviews.len()
            invariant
                k <= self.reviews.len(),
                pre == self@,
                pre.reviews.len() == self.reviews.len(),
                kept_cards.deep_view() == target.cards,
                target == delete_deck_spec(pre, id as int),
                kept_reviews.deep_view() == reviews_of_cards(
                    pre.reviews.subrange(0, k as int),
                    target.cards,
                ),
            decreases self.reviews.len() - k,
        {
            proof {
                assert(pre.reviews.subrange(0, k as int + 1).drop_last() =~= pre.reviews.subrange(
                    0,
                    k as int,
                ));
                assert(pre.reviews.subrange(0, k as int + 1).last() == pre.reviews[k as int]);
            }
            if card_in(&kept_cards, self.reviews[k].card_id) {
                kept_reviews.push(self.reviews[k]);
                proof {
                    assert(kept_reviews.deep_view() =~= reviews_of_cards(
                        pre.reviews.subrange(0, k as int + 1),
                        target.cards,
                    ));
                }
            }
            k = k + 1;
        }
        self.decks = kept_decks;
        self.cards = kept_cards;
        self.reviews = kept_reviews;
        proof {
            assert(pre.decks.subrange(0, pre.decks.len() as int) =~= pre.decks);
            assert(pre.reviews.subrange(0, pre.reviews.len() as int) =~= pre.reviews);
            assert(self@.decks == target.decks);
            assert(self@.cards == target.cards);
            assert(self@.reviews == target.reviews);
            assert(self@ == target);
            lemma_decks_without(pre.decks, id as int);
            lemma_decks_without_distinct(pre.decks, id as int);
            lemma_cards_without_deck(pre.cards, id as int);
            lemma_cards_without_deck_distinct(pre.cards, id as int);
            lemma_reviews_of_cards(pre.reviews, target.cards);
            lemma_reviews_of_cards_increasing(pre.reviews, target.cards);
            assert forall|t: int|
                0 <= t < self@.cards.len() implies has_deck(
                self@.decks,
                (#[trigger] self@.cards[t]).deck_id,
            ) by {
                let w = choose|w: int| 0 <= w < pre.cards.len() && pre.cards[w] == self@.cards[t];
                assert(has_deck(pre.decks, pre.cards[w].deck_id));
                let d = choose|d: int|
                    0 <= d < pre.decks.len() && (#[trigger] pre.decks[d]).id
                        == pre.cards[w].deck_id;
                assert(pre.decks[d].id != id as int);
                assert(decks_without(pre.decks, id as int).contains(pre.decks[d]));
                let v = choose|v: int|
                    0 <= v < self@.decks.len() && self@.decks[v] == pre.decks[d];
                assert(self@.decks[v].id == self@.cards[t].deck_id);
            }
            assert forall|t: int|
                0 <= t < self@.decks.len() implies (#[trigger] self@.decks[t]).id
                < self@.next_deck_id by {
                let w = choose|w: int| 0 <= w < pre.decks.len() && pre.decks[w] == self@.decks[t];
            }
            assert forall|t: int|
                0 <= t < self@.cards.len() implies (#[trigger] self@.cards[t]).id
                < self@.next_card_id by {
                let w = choose|w: int| 0 <= w < pre.cards.len() && pre.cards[w] == self@.cards[t];
            }
            assert forall|t: int|
                0 <= t < self@.reviews.len() implies (#[trigger] self@.reviews[t]).id
                < self@.next_review_id by {
                let w = choose|w: int|
                    0 <= w < pre.reviews.len() && pre.reviews[w] == self@.reviews[t];
            }
            assert(self.wf());
        }
        Ok(())
    }
}

/// The default storage file inside the given data directory: the program's
/// sqlite mirror lives at `<data_dir>/data.sqlite` unless overridden.
pub fn default_data_path(data_dir: &str) -> (r: String)
    ensures
        r@ == data_dir@ + "/data.sqlite"@,
{
    let mut s = data_dir.to_owned();
    s.append("/data.sqlite");
    s
}

/// Consistency of externally supplied tables: unique deck ids and names,
/// unique card ids, a strictly increasing review log, referential integrity,
/// and ids small enough that fresh ones can still be allocated.
pub open spec fn tables_ok(decks: Seq<DeckV>, cards: Seq<CardV>, reviews: Seq<ReviewV>) -> bool {
    &&& forall|i: int, j: int|
        0 <= i < j < decks.len() ==> (#[trigger] decks[i]).id != (#[trigger] decks[j]).id
    &&& forall|i: int, j: int|
        0 <= i < j < decks.len() ==> (#[trigger] decks[i]).name != (#[trigger] decks[j]).name
    &&& forall|i: int, j: int|
        0 <= i < j < cards.len() ==> (#[trigger] cards[i]).id != (#[trigger] cards[j]).id
    &&& forall|i: int, j: int|
        0 <= i < j < reviews.len() ==> (#[trigger] reviews[i]).id < (#[trigger] reviews[j]).id
    &&& forall|i: int| 0 <= i < cards.len() ==> has_deck(decks, (#[trigger] cards[i]).deck_id)
    &&& forall|i: int| 0 <= i < reviews.len() ==> has_card(cards, (#[trigger] reviews[i]).card_id)
    &&& forall|i: int| 0 <= i < decks.len() ==> (#[trigger] decks[i]).id < i64::MAX
    &&& forall|i: int| 0 <= i < cards.len() ==> (#[trigger] cards[i]).id < i64::MAX
    &&& forall|i: int| 0 <= i < reviews.len() ==> (#[trigger] reviews[i]).id < i64::MAX
}

impl Store {
    /// Adopts externally restored tables after validating their consistency.
    /// Fails with `PersistenceFailure` exactly when the tables are not
    /// consistent; on success the store holds them as given, with id
    /// counters placed above every adopted id.
    pub fn load(decks: Vec<Deck>, cards: Vec<CardRecord>, reviews: Vec<Review>) -> (r: ReviseResult<
        Store,
    >)
        ensures
            r is Ok <==> tables_ok(decks.deep_view(), cards.deep_view(), reviews.deep_view()),
            r matches Ok(s) ==> s.wf() && s@.decks == decks.deep_view() && s@.cards
                == cards.deep_view() && s@.reviews == reviews.deep_view(),
            r matches Err(e) ==> e == ReviseError::PersistenceFailure,
    {
        let mut next_deck_id: ID = 1;
        let mut i: usize = 0;
        while i < decks.len()
            invariant
                i <= decks.len(),
                1 <= next_deck_id <= i64::MAX,
                forall|k: int|
                    0 <= k < i ==> (#[trigger] decks.deep_view()[k]).id < next_deck_id,
                forall|p: int, q: int|
                    0 <= p < q < i ==> (#[trigger] decks.deep_view()[p]).id != (
                    #[trigger] decks.deep_view()[q]).id,
                forall|p: int, q: int|
                    0 <= p < q < i ==> (#[trigger] decks.deep_view()[p]).name != (
                    #[trigger] decks.deep_view()[q]).name,
            decreases decks.len() - i,
        {
            let mut j: usize = 0;
            while j < i
                invariant
                    j <= i < decks.len(),
                    forall|q: int|
                        0 <= q < j ==> (#[trigger] decks.deep_view()[q]).id != decks.deep_view()[i
                            as int].id && (#[trigger] decks.deep_view()[q]).name
                            != decks.deep_view()[i as int].name,
                decreases i - j,
            {
                if decks[j].id == decks[i].id
                    || str_eq(decks[j].name.as_str(), decks[i].name.as_str()) {
                    proof {
                        assert(decks.deep_view()[j as int] == decks@[j as int].deep_view());
                        assert(decks.deep_view()[i as int] == decks@[i as int].deep_view());
                    }
                    return Err(ReviseError::PersistenceFailure);
                }
                j = j + 1;
            }
            if decks[i].id == i64::MAX {
                proof {
                    assert(decks.deep_view()[i as int] == decks@[i as int].deep_view());
                }
                return Err(ReviseError::PersistenceFailure);
            }
            if decks[i].id >= next_deck_id {
                next_deck_id = decks[i].id + 1;
            }
            i = i + 1;
        }
        let mut next_card_id: ID = 1;
        let mut i: usize = 0;
        while i < cards.len()
            invariant
                i <= cards.len(),
                1 <= next_card_id <= i64::MAX,
                forall|k: int|
                    0 <= k < i ==> (#[trigger] cards.deep_view()[k]).id < next_card_id,
                forall|p: int, q: int|
                    0 <= p < q < i ==> (#[trigger] cards.deep_view()[p]).id != (
                    #[trigger] cards.deep_view()[q]).id,
                forall|k: int|
                    0 <= k < i ==> has_deck(
                        decks.deep_view(),
                        (#[trigger] cards.deep_view()[k]).deck_id,
                    ),
            decreases cards.len() - i,
        {
            let mut j: usize = 0;
            while j < i
                invariant
                    j <= i < cards.len(),
                    forall|q: int|
                        0 <= q < j ==> (#[trigger] cards.deep_view()[q]).id != cards.deep_view()[i
                            as int].id,
                decreases i - j,
            {
                if cards[j].id == cards[i].id {
                    proof {
                        assert(cards.deep_view()[j as int] == cards@[j as int].deep_view());
                        assert(cards.deep_view()[i as int] == cards@[i as int].deep_view());
                    }
                    return Err(ReviseError::PersistenceFailure);
                }
                j = j + 1;
            }
            let mut found: bool = false;
            let mut j: usize = 0;
            while j < decks.len()
                invariant
                    j <= decks.len(),
                    i < cards.len(),
                    found ==> has_deck(decks.deep_view(), cards.deep_view()[i as int].deck_id),
                    !found ==> forall|q: int|
                        0 <= q < j ==> (#[trigger] decks.deep_view()[q]).id != cards.deep_view()[i
                            as int].deck_id,
                decreases decks.len() - j,
            {
                if decks[j].id == cards[i].deck_id {
                    proof {
                        assert(decks.deep_view()[j as int].id == cards.deep_view()[
                            i as int
                        ].deck_id);
                    }
                    found = true;
                }
                j = j + 1;
            }
            if !found {
                proof {
                    assert(!has_deck(decks.deep_view(), cards.deep_view()[i as int].deck_id));
                }
                return Err(ReviseError::PersistenceFailure);
            }
            if cards[i].id == i64::MAX {
                proof {
                    assert(cards.deep_view()[i as int] == cards@[i as int].deep_view());
                }
                return Err(ReviseError::PersistenceFailure);
            }
            if cards[i].id >= next_card_id {
                next_card_id = cards[i].id + 1;
            }
            i = i + 1;
        }
        let mut next_review_id: ID = 1;
        let mut i: usize = 0;
        while i < reviews.len()
            invariant
                i <= reviews.len(),
                1 <= next_review_id <= i64::MAX,
                forall|k: int|
                    0 <= k < i ==> (#[trigger] reviews.deep_view()[k]).id < next_review_id,
                forall|p: int, q: int|
                    0 <= p < q < i ==> (#[trigger] reviews.deep_view()[p]).id < (
                    #[trigger] reviews.deep_view()[q]).id,
                forall|k: int|
                    0 <= k < i ==> has_card(
                        cards.deep_view(),
                        (#[trigger] reviews.deep_view()[k]).card_id,
                    ),
            decreases reviews.len() - i,
        {
            if i > 0 && reviews[i - 1].id >= reviews[i].id {
                proof {
                    assert(reviews.deep_view()[i as int - 1] == reviews@[i as int - 1].deep_view());
                    assert(reviews.deep_view()[i as int] == reviews@[i as int].deep_view());
                }
                return Err(ReviseError::PersistenceFailure);
            }
            proof {
                if i > 0 {
                    assert(forall|p: int|
                        0 <= p < i - 1 ==> (#[trigger] reviews.deep_view()[p]).id
                            < reviews.deep_view()[i as int - 1].id);
                }
            }
            let mut found: bool = false;
            let mut j: usize = 0;
            while j < cards.len()
                invariant
                    j <= cards.len(),
                    i < reviews.len(),
                    found ==> has_card(cards.deep_view(), reviews.deep_view()[i as int].card_id),
                    !found ==> forall|q: int|
                        0 <= q < j ==> (#[trigger] cards.deep_view()[q]).id != reviews.deep_view()[i
                            as int].card_id,
                decreases cards.len() - j,
            {
                if cards[j].id == reviews[i].card_id {
                    proof {
                        assert(cards.deep_view()[j as int].id == reviews.deep_view()[
                            i as int
                        ].card_id);
                    }
                    found = true;
                }
                j = j + 1;
            }
            if !found {
                proof {
                    assert(!has_card(cards.deep_view(), reviews.deep_view()[i as int].card_id));
                }
                return Err(ReviseError::PersistenceFailure);
            }
            if reviews[i].id == i64::MAX {
                proof {
                    assert(reviews.deep_view()[i as int] == reviews@[i as int].deep_view());
                }
                return Err(ReviseError::PersistenceFailure);
            }
            if reviews[i].id >= next_review_id {
                next_review_id = reviews[i].id + 1;
            }
            i = i + 1;
        }
        let s = Store { decks, cards, reviews, next_deck_id, next_card_id, next_review_id };
        proof {
            assert(s.wf());
        }
        Ok(s)
    }
}

} // verus!
