//! The interactive session: its state and its key-driven transitions.
//!
//! The session holds a cached deck list, the visible card list for the
//! selected sidebar slot, the focus, the mode (plain navigation, live search,
//! an open review prompt, or a pending deck-deletion confirmation), and a
//! derived detail panel.  Work that only the surrounding program can do —
//! running the external editor, computing the memory model — is handed out as
//! a [`UiRequest`] and its result is handed back through a dedicated entry
//! point.

use vstd::prelude::*;

use crate::schedule::ScheduleInput;
use crate::schedule::SchedulePreview;
use crate::store::card_index;
use crate::store::card_join;
use crate::store::delete_deck_spec;
use crate::store::has_card;
use crate::store::has_deck;
use crate::store::remove_card_spec;
use crate::store::reviews_for;
use crate::store::set_suspended_spec;
use crate::store::sweep_spec;
use crate::store::summaries_of;
use crate::store::Card;
use crate::store::CardSummary;
use crate::store::CardSummaryV;
use crate::store::Deck;
use crate::store::DeckV;
use crate::store::Review;
use crate::store::StoreV;
use crate::store::ID;
use crate::strutil::is_substring;
use crate::strutil::pop_char;
use crate::strutil::push_char;
use crate::strutil::str_contains;
use crate::usecase::schedule_input_spec;
use crate::usecase::Usecase;

verus! {

/// Which pane has the keyboard.
#[derive(Clone, Copy, Debug, PartialEq, Eq, Structural)]
pub enum Focused {
    Sidebar,
    Cards,
}

/// An open review prompt: the card under review and the four candidate
/// outcomes shown to the user.
#[derive(Clone, Copy, Debug, PartialEq, Eq, Structural)]
pub struct ReviseCardDetails {
    pub id: ID,
    pub preview: SchedulePreview,
}

/// The card-pane mode.
#[derive(Clone, Copy, Debug, PartialEq, Eq, Structural)]
pub enum Mode {
    Normal,
    Searching,
    Revising(ReviseCardDetails),
    ConfirmingDelete(ID),
}

/// The detail panel: one card with its review history, always re-derived
/// from the store.
pub struct CardInfo {
    pub card: Card,
    pub reviews: Vec<Review>,
}

/// A key press, as the session understands it.
#[derive(Clone, Copy, Debug, PartialEq, Eq, Structural)]
pub enum Key {
    Char(char),
    Tab,
    Enter,
    Esc,
    Backspace,
}

/// Work that the session asks the surrounding program to do.
pub enum UiRequest {
    /// Author a new card in the external editor, optionally pre-filled with
    /// the current deck's name.
    AddCard { prefill_deck: Option<String> },
    /// Re-author an existing card in the external editor.
    EditCard { id: ID },
    /// Run the memory-model computation for a card, then hand the preview
    /// back through [`AppState::enter_revising`].
    Schedule { card_id: ID, input: ScheduleInput },
}

/// The session state.
pub struct AppState {
    /// Cached deck list, refreshed from the store after every mutation.
    pub decks: Vec<Deck>,
    /// The card list of the selected slot (before search filtering).
    pub cards: Vec<CardSummary>,
    pub focused: Focused,
    pub mode: Mode,
    /// Derived detail panel for the selected row.
    pub card_info: Option<CardInfo>,
    /// Selected row of the visible (search-filtered) card list.
    pub selected_card_row: usize,
    /// Selected sidebar slot.
    pub selected_deck_slot: usize,
    /// The live search filter; it keeps filtering after search mode is left,
    /// until explicitly cleared.
    pub search_buffer: String,
}

/// The rows that the search buffer leaves visible, in order.
pub open spec fn visible_spec(cards: Seq<CardSummaryV>, buffer: Seq<char>) -> Seq<CardSummaryV>
    decreases cards.len(),
{
    if cards.len() == 0 {
        Seq::empty()
    } else {
        let rest = visible_spec(cards.drop_last(), buffer);
        if is_substring(buffer, cards.last().title) {
            rest.push(cards.last())
        } else {
            rest
        }
    }
}

/// A selection clamped into a list of the given length.
pub open spec fn clamp_row(row: int, len: int) -> int {
    if row < len {
        row
    } else if len == 0 {
        0
    } else {
        len - 1
    }
}

/// The card list of a sidebar slot: 0 lists the due cards of every deck,
/// 1 the suspended cards, 2 the whole non-suspended collection, and slot
/// `i >= 3` the due cards of deck `i - 3`; a slot beyond the deck list
/// clamps to the last deck, or to the whole collection when there is none.
pub open spec fn slot_summaries(s: StoreV, ind: int, decks: Seq<DeckV>, now: int) -> Seq<
    CardSummaryV,
> {
    if ind == 0 {
        summaries_of(s.cards, s.decks, None, false, false, now)
    } else if ind == 1 {
        summaries_of(s.cards, s.decks, None, true, true, now)
    } else if ind == 2 {
        summaries_of(s.cards, s.decks, None, true, false, now)
    } else if ind - 3 < decks.len() {
        summaries_of(s.cards, s.decks, Some(decks[ind - 3].id), false, false, now)
    } else if decks.len() > 0 {
        summaries_of(s.cards, s.decks, Some(decks[decks.len() - 1].id), false, false, now)
    } else {
        summaries_of(s.cards, s.decks, None, true, false, now)
    }
}

/// The card list that a sidebar slot shows, fetched from the store.
pub fn get_cards_in_deck(usecase: &Usecase, ind: usize, decks: &Vec<Deck>, now: i64) -> (r: Vec<
    CardSummary,
>)
    requires
        usecase.wf(),
    ensures
        r.deep_view() == slot_summaries(usecase@, ind as int, decks.deep_view(), now as int),
{
    if ind == 0 {
        usecase.list_card_summaries_at(None, false, false, now)
    } else if ind == 1 {
        usecase.list_card_summaries_at(None, true, true, now)
    } else if ind == 2 {
        usecase.list_card_summaries_at(None, true, false, now)
    } else if ind - 3 < decks.len() {
        usecase.list_card_summaries_at(Some(decks[ind - 3].id), false, false, now)
    } else if decks.len() > 0 {
        usecase.list_card_summaries_at(Some(decks[decks.len() - 1].id), false, false, now)
    } else {
        usecase.list_card_summaries_at(None, true, false, now)
    }
}

/// The detail panel is in step with the store: when a visible row is
/// selected, the panel holds that card joined with its deck and its full
/// review history; when the selected card is gone it is empty, and when no
/// row is selected it keeps its previous content.
pub open spec fn info_refreshed(pre: AppState, post: AppState, s: StoreV) -> bool {
    let vis = visible_spec(post.cards.deep_view(), post.search_buffer@);
    &&& (post.selected_card_row < vis.len() && has_card(
        s.cards,
        vis[post.selected_card_row as int].id,
    ) ==> (post.card_info matches Some(ci) && ci.card@ == card_join(
        s.cards[card_index(s.cards, vis[post.selected_card_row as int].id)],
        s.decks,
    ) && ci.reviews.deep_view() == reviews_for(s.reviews, vis[post.selected_card_row as int].id)))
    &&& (post.selected_card_row < vis.len() && !has_card(
        s.cards,
        vis[post.selected_card_row as int].id,
    ) ==> post.card_info is None)
    &&& (post.selected_card_row >= vis.len() ==> post.card_info == pre.card_info)
}

/// The cached lists are in step with the store after a refresh at `now`: the
/// deck list mirrors the store, the card list shows the given slot, and the
/// selection is clamped into the visible rows.
pub open spec fn lists_refreshed(
    pre: AppState,
    post: AppState,
    s: StoreV,
    slot: int,
    now: int,
) -> bool {
    &&& post.decks.deep_view() == s.decks
    &&& post.cards.deep_view() == slot_summaries(s, slot, s.decks, now)
    &&& post.selected_deck_slot == slot
    &&& post.search_buffer@ == pre.search_buffer@
    &&& post.selected_card_row as int == clamp_row(
        pre.selected_card_row as int,
        visible_spec(post.cards.deep_view(), pre.search_buffer@).len() as int,
    )
}

/// The cached lists and the selection are untouched.
pub open spec fn same_lists(pre: AppState, post: AppState) -> bool {
    &&& post.decks.deep_view() == pre.decks.deep_view()
    &&& post.cards.deep_view() == pre.cards.deep_view()
    &&& post.search_buffer@ == pre.search_buffer@
    &&& post.selected_card_row == pre.selected_card_row
    &&& post.selected_deck_slot == pre.selected_deck_slot
}

/// Neither the session's lists nor the store changed.
pub open spec fn no_op(pre: AppState, pre_s: StoreV, post: AppState, post_s: StoreV) -> bool {
    &&& same_lists(pre, post)
    &&& post.focused == pre.focused
    &&& post.mode == pre.mode
    &&& post_s == pre_s
}

/// The rating that a key press selects, if any.
pub open spec fn rating_of_key(key: Key) -> Option<u32> {
    if key == Key::Char('1') {
        Some(1u32)
    } else if key == Key::Char('2') {
        Some(2u32)
    } else if key == Key::Char('3') {
        Some(3u32)
    } else if key == Key::Char('4') {
        Some(4u32)
    } else {
        None
    }
}

/// The quick-filter digit a key press carries, if any.
pub open spec fn digit_of_key(key: Key) -> Option<int> {
    match key {
        Key::Char(c) => if '1' <= c <= '9' {
            Some(c as int - '0' as int)
        } else {
            None
        },
        _ => None,
    }
}

/// What committing a review leaves in the store: the commit when the card
/// exists and an id can be allocated, and the store unchanged otherwise.
pub open spec fn commit_result_spec(
    s: StoreV,
    card_id: int,
    rating: u32,
    preview: SchedulePreview,
    now: int,
) -> StoreV {
    if has_card(s.cards, card_id) && s.next_review_id < i64::MAX {
        crate::usecase::commit_spec(s, card_id, rating, preview, now)
    } else {
        s
    }
}

/// The deck-deletion confirmation: `y` deletes the deck (cascading to its
/// cards and reviews), resets the selection to slot 0 and refreshes; any
/// other key cancels without mutation.  Either way the prompt closes.
pub open spec fn confirm_step(
    pre: AppState,
    pre_s: StoreV,
    deck_id: ID,
    key: Key,
    now: int,
    post: AppState,
    post_s: StoreV,
    req: Option<UiRequest>,
) -> bool {
    &&& req is None
    &&& post.focused == pre.focused
    &&& post.mode == Mode::Normal
    &&& if key == Key::Char('y') {
        &&& post_s == (if has_deck(pre_s.decks, deck_id as int) {
            delete_deck_spec(pre_s, deck_id as int)
        } else {
            pre_s
        })
        &&& lists_refreshed(pre, post, post_s, 0, now)
    } else {
        &&& post_s == pre_s
        &&& same_lists(pre, post)
    }
}

/// The review prompt: `1`-`4` commit the matching arm of the held preview
/// and close the prompt, Escape cancels without committing, anything else is
/// ignored; committing refreshes the card list.
pub open spec fn revising_step(
    pre: AppState,
    pre_s: StoreV,
    details: ReviseCardDetails,
    key: Key,
    now: int,
    post: AppState,
    post_s: StoreV,
    req: Option<UiRequest>,
) -> bool {
    &&& req is None
    &&& post.focused == pre.focused
    &&& match rating_of_key(key) {
        Some(n) => {
            &&& post.mode == Mode::Normal
            &&& post_s == commit_result_spec(pre_s, details.id as int, n, details.preview, now)
            &&& lists_refreshed(pre, post, post_s, pre.selected_deck_slot as int, now)
        },
        None => {
            &&& post_s == pre_s
            &&& same_lists(pre, post)
            &&& if key == Key::Esc {
                post.mode == Mode::Normal
            } else {
                post.mode == pre.mode
            }
        },
    }
}

/// Live search: printable input edits the filter buffer and the selection is
/// re-clamped into the filtered rows; Enter or Escape returns to plain
/// navigation with the buffer intact.
pub open spec fn searching_step(
    pre: AppState,
    pre_s: StoreV,
    key: Key,
    now: int,
    post: AppState,
    post_s: StoreV,
    req: Option<UiRequest>,
) -> bool {
    &&& req is None
    &&& post_s == pre_s
    &&& post.focused == pre.focused
    &&& post.decks.deep_view() == pre.decks.deep_view()
    &&& post.cards.deep_view() == pre.cards.deep_view()
    &&& post.selected_deck_slot == pre.selected_deck_slot
    &&& match key {
        Key::Enter | Key::Esc => {
            &&& post.mode == Mode::Normal
            &&& post.search_buffer@ == pre.search_buffer@
            &&& post.selected_card_row == pre.selected_card_row
        },
        Key::Char(c) => {
            &&& post.mode == Mode::Searching
            &&& post.search_buffer@ == pre.search_buffer@.push(c)
            &&& post.selected_card_row as int == clamp_row(
                pre.selected_card_row as int,
                visible_spec(pre.cards.deep_view(), post.search_buffer@).len() as int,
            )
        },
        Key::Backspace => {
            &&& post.mode == Mode::Searching
            &&& post.search_buffer@ == (if pre.search_buffer@.len() > 0 {
                pre.search_buffer@.drop_last()
            } else {
                pre.search_buffer@
            })
            &&& post.selected_card_row as int == clamp_row(
                pre.selected_card_row as int,
                visible_spec(pre.cards.deep_view(), post.search_buffer@).len() as int,
            )
        },
        Key::Tab => {
            &&& post.mode == Mode::Searching
            &&& post.search_buffer@ == pre.search_buffer@
            &&& post.selected_card_row == pre.selected_card_row
        },
    }
}

/// The sidebar: up and down move the selected slot without leaving the valid
/// range and refresh the card list, Tab hands focus to the card pane, and
/// delete on a deck slot opens the confirmation prompt.
pub open spec fn sidebar_step(
    pre: AppState,
    pre_s: StoreV,
    key: Key,
    now: int,
    post: AppState,
    post_s: StoreV,
    req: Option<UiRequest>,
) -> bool {
    &&& req is None
    &&& post_s == pre_s
    &&& if key == Key::Tab {
        &&& post.focused == Focused::Cards
        &&& post.mode == pre.mode
        &&& same_lists(pre, post)
    } else if key == Key::Char('k') {
        &&& post.focused == pre.focused
        &&& post.mode == pre.mode
        &&& lists_refreshed(
            pre,
            post,
            pre_s,
            if pre.selected_deck_slot > 0 {
                pre.selected_deck_slot - 1
            } else {
                0
            },
            now,
        )
    } else if key == Key::Char('j') {
        &&& post.focused == pre.focused
        &&& post.mode == pre.mode
        &&& lists_refreshed(
            pre,
            post,
            pre_s,
            bumped_slot(pre.selected_deck_slot as int, pre.decks.deep_view().len() as int),
            now,
        )
    } else if key == Key::Char('d') {
        &&& post.focused == pre.focused
        &&& same_lists(pre, post)
        &&& if 3 <= pre.selected_deck_slot && pre.selected_deck_slot - 3
            < pre.decks.deep_view().len() {
            post.mode == (Mode::ConfirmingDelete(
                pre.decks[pre.selected_deck_slot - 3].id,
            ))
        } else {
            post.mode == pre.mode
        }
    } else {
        no_op(pre, pre_s, post, post_s)
    }
}

/// The sidebar slot after moving down: one further, clamped to the last deck
/// slot and to the machine's index range.
pub open spec fn bumped_slot(slot: int, ndecks: int) -> int {
    let cand = if slot + 1 <= usize::MAX {
        slot + 1
    } else {
        slot
    };
    let bound = if ndecks + 2 <= usize::MAX {
        ndecks + 2
    } else {
        usize::MAX as int
    };
    if cand > bound {
        bound
    } else {
        cand
    }
}

/// The card pane in plain navigation: row movement, the digit quick filter,
/// entering search, card deletion with an orphan sweep, suspend or
/// unsuspend, and the three requests handed to the surrounding program
/// (authoring a new card, re-authoring the selected one, scheduling a
/// review).  In the suspended view only unsuspending, deletion, editing and
/// navigation apply.
pub open spec fn cards_step(
    pre: AppState,
    pre_s: StoreV,
    key: Key,
    now: int,
    post: AppState,
    post_s: StoreV,
    req: Option<UiRequest>,
) -> bool {
    let vis = visible_spec(pre.cards.deep_view(), pre.search_buffer@);
    if key == Key::Tab {
        &&& req is None
        &&& post_s == pre_s
        &&& post.focused == Focused::Sidebar
        &&& post.mode == pre.mode
        &&& same_lists(pre, post)
    } else if digit_of_key(key) is Some {
        let n = digit_of_key(key)->Some_0;
        &&& req is None
        &&& post_s == pre_s
        &&& post.focused == pre.focused
        &&& post.mode == pre.mode
        &&& if n <= pre.decks.deep_view().len() {
            lists_refreshed(pre, post, pre_s, n + 2, now)
        } else {
            same_lists(pre, post)
        }
    } else if key == Key::Char('k') {
        &&& req is None
        &&& post_s == pre_s
        &&& post.focused == pre.focused
        &&& post.mode == pre.mode
        &&& post.decks.deep_view() == pre.decks.deep_view()
        &&& post.cards.deep_view() == pre.cards.deep_view()
        &&& post.search_buffer@ == pre.search_buffer@
        &&& post.selected_deck_slot == pre.selected_deck_slot
        &&& post.selected_card_row == (if pre.selected_card_row > 0 {
            pre.selected_card_row - 1
        } else {
            0
        })
    } else if key == Key::Char('j') {
        &&& req is None
        &&& post_s == pre_s
        &&& post.focused == pre.focused
        &&& post.mode == pre.mode
        &&& post.decks.deep_view() == pre.decks.deep_view()
        &&& post.cards.deep_view() == pre.cards.deep_view()
        &&& post.search_buffer@ == pre.search_buffer@
        &&& post.selected_deck_slot == pre.selected_deck_slot
        &&& post.selected_card_row as int == (if pre.selected_card_row + 1 < vis.len() {
            pre.selected_card_row + 1
        } else {
            clamp_row(pre.selected_card_row as int, vis.len() as int)
        })
    } else if key == Key::Char('/') {
        &&& req is None
        &&& post_s == pre_s
        &&& post.focused == pre.focused
        &&& post.mode == Mode::Searching
        &&& same_lists(pre, post)
    } else if key == Key::Char('d') {
        &&& req is None
        &&& post.focused == pre.focused
        &&& post.mode == pre.mode
        &&& if pre.selected_card_row < vis.len() {
            &&& post_s == sweep_spec(
                remove_card_spec(pre_s, vis[pre.selected_card_row as int].id),
            )
            &&& lists_refreshed(pre, post, post_s, pre.selected_deck_slot as int, now)
        } else {
            &&& post_s == pre_s
            &&& same_lists(pre, post)
        }
    } else if key == Key::Char('e') {
        &&& post_s == pre_s
        &&& post.focused == pre.focused
        &&& post.mode == pre.mode
        &&& same_lists(pre, post)
        &&& if pre.selected_card_row < vis.len() {
            req == (Some(UiRequest::EditCard { id: vis[pre.selected_card_row as int].id as ID }))
        } else {
            req is None
        }
    } else if key == Key::Char('a') {
        &&& post_s == pre_s
        &&& post.focused == pre.focused
        &&& post.mode == pre.mode
        &&& same_lists(pre, post)
        &&& if pre.selected_deck_slot != 1 {
            &&& (req matches Some(u) && u matches UiRequest::AddCard { prefill_deck })
            &&& (req matches Some(UiRequest::AddCard { prefill_deck }) ==> {
                if 3 <= pre.selected_deck_slot && pre.selected_deck_slot - 3
                    < pre.decks.deep_view().len() {
                    prefill_deck matches Some(p) && p@ == pre.decks.deep_view()[pre.selected_deck_slot
                        - 3].name
                } else {
                    prefill_deck is None
                }
            })
        } else {
            req is None
        }
    } else if key == Key::Char('r') {
        &&& post_s == pre_s
        &&& post.focused == pre.focused
        &&& post.mode == pre.mode
        &&& same_lists(pre, post)
        &&& if pre.selected_deck_slot != 1 && pre.selected_card_row < vis.len() && has_card(
            pre_s.cards,
            vis[pre.selected_card_row as int].id,
        ) {
            req == (Some(
                UiRequest::Schedule {
                    card_id: vis[pre.selected_card_row as int].id as ID,
                    input: schedule_input_spec(pre_s, vis[pre.selected_card_row as int].id, now),
                },
            ))
        } else {
            req is None
        }
    } else if key == Key::Char('s') {
        &&& req is None
        &&& post.focused == pre.focused
        &&& post.mode == pre.mode
        &&& if pre.selected_card_row < vis.len() {
            &&& post_s == set_suspended_spec(
                pre_s,
                vis[pre.selected_card_row as int].id,
                pre.selected_deck_slot != 1,
            )
            &&& lists_refreshed(pre, post, post_s, pre.selected_deck_slot as int, now)
        } else {
            &&& post_s == pre_s
            &&& same_lists(pre, post)
        }
    } else {
        no_op(pre, pre_s, post, post_s)
    }
}

/// One step of the session state machine, info panel aside: the mode (and,
/// under plain navigation, the focus) selects the transition table.
pub open spec fn step_spec(
    pre: AppState,
    pre_s: StoreV,
    key: Key,
    now: int,
    post: AppState,
    post_s: StoreV,
    req: Option<UiRequest>,
) -> bool {
    match pre.mode {
        Mode::ConfirmingDelete(deck_id) => confirm_step(
            pre,
            pre_s,
            deck_id,
            key,
            now,
            post,
            post_s,
            req,
        ),
        Mode::Revising(details) => revising_step(pre, pre_s, details, key, now, post, post_s, req),
        Mode::Searching => searching_step(pre, pre_s, key, now, post, post_s, req),
        Mode::Normal => if pre.focused == Focused::Sidebar {
            sidebar_step(pre, pre_s, key, now, post, post_s, req)
        } else {
            cards_step(pre, pre_s, key, now, post, post_s, req)
        },
    }
}

/// The rating a key press selects, executably.
fn rating_key(key: Key) -> (r: Option<usize>)
    ensures
        rating_of_key(key) is Some <==> r is Some,
        r matches Some(n) ==> 1 <= n <= 4 && rating_of_key(key) == Some(n as u32),
{
    match key {
        Key::Char(c) if c == '1' => Some(1),
        Key::Char(c) if c == '2' => Some(2),
        Key::Char(c) if c == '3' => Some(3),
        Key::Char(c) if c == '4' => Some(4),
        _ => None,
    }
}

impl Default for AppState {
    /// The initial session: card pane focused, plain navigation, slot 0
    /// (the due cards) selected, everything else empty.
    fn default() -> (s: AppState)
        ensures
            s.decks@.len() == 0,
            s.cards@.len() == 0,
            s.focused == Focused::Cards,
            s.mode == Mode::Normal,
            s.card_info is None,
            s.selected_card_row == 0,
            s.selected_deck_slot == 0,
            s.search_buffer@.len() == 0,
    {
        AppState {
            decks: Vec::new(),
            cards: Vec::new(),
            focused: Focused::Cards,
            mode: Mode::Normal,
            card_info: None,
            selected_card_row: 0,
            selected_deck_slot: 0,
            search_buffer: String::new(),
        }
    }
}

impl AppState {
    /// The rows that the search buffer leaves visible.
    pub fn visible_cards(&self) -> (r: Vec<CardSummary>)
        ensures
            r.deep_view() == visible_spec(self.cards.deep_view(), self.search_buffer@),
    {
        let mut out: Vec<CardSummary> = Vec::new();
        let mut i: usize = 0;
        while i < self.cards.len()
            invariant
                i <= self.cards.len(),
                self.cards.deep_view().len() == self.cards.len(),
                out.deep_view() == visible_spec(
                    self.cards.deep_view().subrange(0, i as int),
                    self.search_buffer@,
                ),
            decreases self.cards.len() - i,
        {
            proof {
                assert(self.cards.deep_view().subrange(0, i as int + 1).drop_last()
                    =~= self.cards.deep_view().subrange(0, i as int));
                assert(self.cards.deep_view().subrange(0, i as int + 1).last()
                    == self.cards.deep_view()[i as int]);
            }
            if str_contains(self.cards[i].title.as_str(), self.search_buffer.as_str()) {
                out.push(self.cards[i].duplicate());
                proof {
                    assert(out.deep_view() =~= visible_spec(
                        self.cards.deep_view().subrange(0, i as int + 1),
                        self.search_buffer@,
                    ));
                }
            }
            i = i + 1;
        }
        proof {
            assert(self.cards.deep_view().subrange(0, self.cards.deep_view().len() as int)
                =~= self.cards.deep_view());
        }
        out
    }

    /// Re-fetches the deck list and the card list of a slot, clamping the
    /// selection into the visible rows; the detail panel is untouched.
    fn refresh_view(&mut self, usecase: &Usecase, slot: usize, now: i64)
        requires
            usecase.wf(),
        ensures
            lists_refreshed(*old(self), *final(self), usecase@, slot as int, now as int),
            final(self).focused == old(self).focused,
            final(self).mode == old(self).mode,
            final(self).card_info == old(self).card_info,
    {
        self.decks = usecase.list_decks();
        self.selected_deck_slot = slot;
        self.cards = get_cards_in_deck(usecase, slot, &self.decks, now);
        let vis = self.visible_cards();
        if self.selected_card_row >= vis.len() {
            self.selected_card_row = if vis.len() == 0 {
                0
            } else {
                vis.len() - 1
            };
        }
    }

    /// Re-derives the detail panel from the store for the selected row.
    fn refresh_info(&mut self, usecase: &Usecase)
        requires
            usecase.wf(),
        ensures
            info_refreshed(*old(self), *final(self), usecase@),
            same_lists(*old(self), *final(self)),
            final(self).focused == old(self).focused,
            final(self).mode == old(self).mode,
    {
        let vis = self.visible_cards();
        if self.selected_card_row < vis.len() {
            let id = vis[self.selected_card_row].id;
            match usecase.get_card(id) {
                Ok(card) => {
                    let reviews = usecase.get_reviews(id);
                    self.card_info = Some(CardInfo { card, reviews });
                },
                Err(_) => {
                    self.card_info = None;
                },
            }
        }
    }

    /// Refreshes every derived view for the current slot, as after authoring
    /// in the external editor.
    pub fn refresh(&mut self, usecase: &Usecase, now: i64)
        requires
            usecase.wf(),
        ensures
            lists_refreshed(
                *old(self),
                *final(self),
                usecase@,
                old(self).selected_deck_slot as int,
                now as int,
            ),
            info_refreshed(*old(self), *final(self), usecase@),
            final(self).focused == old(self).focused,
            final(self).mode == old(self).mode,
    {
        let slot = self.selected_deck_slot;
        self.refresh_view(usecase, slot, now);
        self.refresh_info(usecase);
    }

    /// Feeds one key press through the transition table; work that only the
    /// surrounding program can do comes back as a request, and the detail
    /// panel is refreshed afterwards.
    /// Feeds one key press through the transition table; the detail panel
    /// is refreshed separately by [`AppState::handle_key_event`].
    #[verifier::rlimit(100)]
    fn dispatch_key(&mut self, usecase: &mut Usecase, key: Key, now: i64) -> (r: Option<
        UiRequest,
    >)
        requires
            old(usecase).wf(),
        ensures
            final(usecase).wf(),
            step_spec(
                *old(self),
                old(usecase)@,
                key,
                now as int,
                *final(self),
                final(usecase)@,
                r,
            ),
            final(self).card_info == old(self).card_info,
    {
        let mode = self.mode;
        match mode {
            Mode::ConfirmingDelete(deck_id) => {
                self.mode = Mode::Normal;
                match key {
                    Key::Char(c) => {
                        if c == 'y' {
                            match usecase.delete_deck(deck_id) {
                                Ok(_) => {},
                                Err(_) => {},
                            }
                            self.refresh_view(usecase, 0, now);
                        }
                    },
                    _ => {},
                }
                None
            },
            Mode::Revising(details) => {
                match rating_key(key) {
                    Some(n) => {
                        self.mode = Mode::Normal;
                        match usecase.revise_card(details.id, n, &details.preview, now) {
                            Ok(_) => {},
                            Err(_) => {},
                        }
                        let slot = self.selected_deck_slot;
                        self.refresh_view(usecase, slot, now);
                    },
                    None => {
                        match key {
                            Key::Esc => {
                                self.mode = Mode::Normal;
                            },
                            _ => {},
                        }
                    },
                }
                None
            },
            Mode::Searching => {
                match key {
                    Key::Enter | Key::Esc => {
                        self.mode = Mode::Normal;
                    },
                    Key::Char(c) => {
                        self.push_search(c);
                        self.clamp_selection();
                    },
                    Key::Backspace => {
                        self.pop_search();
                        self.clamp_selection();
                    },
                    Key::Tab => {},
                }
                None
            },
            Mode::Normal => {
                if matches!(self.focused, Focused::Sidebar) {
                    match key {
                        Key::Tab => {
                            self.focused = Focused::Cards;
                        },
                        Key::Char(c) => {
                            if c == 'k' {
                                let slot = if self.selected_deck_slot > 0 {
                                    self.selected_deck_slot - 1
                                } else {
                                    0
                                };
                                self.refresh_view(usecase, slot, now);
                            } else if c == 'j' {
                                let slot = self.selected_deck_slot;
                                let cand = match slot.checked_add(1) {
                                    Some(v) => v,
                                    None => slot,
                                };
                                let bound = match self.decks.len().checked_add(2) {
                                    Some(v) => v,
                                    None => usize::MAX,
                                };
                                let new_slot = if cand > bound {
                                    bound
                                } else {
                                    cand
                                };
                                proof {
                                    assert(new_slot as int == bumped_slot(
                                        old(self).selected_deck_slot as int,
                                        old(self).decks.deep_view().len() as int,
                                    ));
                                }
                                self.refresh_view(usecase, new_slot, now);
                            } else if c == 'd' {
                                if 3 <= self.selected_deck_slot && self.selected_deck_slot - 3
                                    < self.decks.len() {
                                    let deck_id = self.decks[self.selected_deck_slot - 3].id;
                                    self.mode = Mode::ConfirmingDelete(deck_id);
                                }
                            }
                        },
                        _ => {},
                    }
                    None
                } else {
                    let vis = self.visible_cards();
                    match key {
                        Key::Tab => {
                            self.focused = Focused::Sidebar;
                            None
                        },
                        Key::Char(c) => {
                            if '1' <= c && c <= '9' {
                                let n = (c as usize) - ('0' as usize);
                                if n <= self.decks.len() {
                                    self.refresh_view(usecase, n + 2, now);
                                }
                                None
                            } else if c == 'k' {
                                if self.selected_card_row > 0 {
                                    self.selected_card_row = self.selected_card_row - 1;
                                }
                                None
                            } else if c == 'j' {
                                if vis.len() > 0 && self.selected_card_row < vis.len() - 1 {
                                    self.selected_card_row = self.selected_card_row + 1;
                                } else {
                                    self.clamp_selection();
                                }
                                None
                            } else if c == '/' {
                                self.mode = Mode::Searching;
                                None
                            } else if c == 'd' {
                                if self.selected_card_row < vis.len() {
                                    let id = vis[self.selected_card_row].id;
                                    match usecase.remove_card(id) {
                                        Ok(_) => {},
                                        Err(_) => {},
                                    }
                                    let slot = self.selected_deck_slot;
                                    self.refresh_view(usecase, slot, now);
                                }
                                None
                            } else if c == 'e' {
                                if self.selected_card_row < vis.len() {
                                    Some(UiRequest::EditCard { id: vis[self.selected_card_row].id })
                                } else {
                                    None
                                }
                            } else if c == 'a' {
                                if self.selected_deck_slot != 1 {
                                    let prefill = if 3 <= self.selected_deck_slot
                                        && self.selected_deck_slot - 3 < self.decks.len() {
                                        Some(self.decks[self.selected_deck_slot - 3].name.clone())
                                    } else {
                                        None
                                    };
                                    Some(UiRequest::AddCard { prefill_deck: prefill })
                                } else {
                                    None
                                }
                            } else if c == 'r' {
                                if self.selected_deck_slot != 1 && self.selected_card_row
                                    < vis.len() {
                                    let id = vis[self.selected_card_row].id;
                                    match usecase.schedule_input(id, now) {
                                        Ok(input) => Some(
                                            UiRequest::Schedule { card_id: id, input },
                                        ),
                                        Err(_) => None,
                                    }
                                } else {
                                    None
                                }
                            } else if c == 's' {
                                if self.selected_card_row < vis.len() {
                                    let id = vis[self.selected_card_row].id;
                                    if self.selected_deck_slot == 1 {
                                        usecase.unsuspend_card(id);
                                    } else {
                                        usecase.suspend_card(id);
                                    }
                                    let slot = self.selected_deck_slot;
                                    self.refresh_view(usecase, slot, now);
                                }
                                None
                            } else {
                                None
                            }
                        },
                        _ => None,
                    }
                }
            },
        }
    }

    /// Feeds one key press through the transition table and refreshes the
    /// detail panel; work that only the surrounding program can do comes
    /// back as a request.
    pub fn handle_key_event(&mut self, usecase: &mut Usecase, key: Key, now: i64) -> (r: Option<
        UiRequest,
    >)
        requires
            old(usecase).wf(),
        ensures
            final(usecase).wf(),
            step_spec(
                *old(self),
                old(usecase)@,
                key,
                now as int,
                *final(self),
                final(usecase)@,
                r,
            ),
            info_refreshed(*old(self), *final(self), final(usecase)@),
    {
        let req = self.dispatch_key(usecase, key, now);
        self.refresh_info(usecase);
        req
    }

    /// Appends one character to the search buffer.
    fn push_search(&mut self, c: char)
        ensures
            final(self).search_buffer@ == old(self).search_buffer@.push(c),
            final(self).decks == old(self).decks,
            final(self).cards == old(self).cards,
            final(self).focused == old(self).focused,
            final(self).mode == old(self).mode,
            final(self).card_info == old(self).card_info,
            final(self).selected_card_row == old(self).selected_card_row,
            final(self).selected_deck_slot == old(self).selected_deck_slot,
    {
        push_char(&mut self.search_buffer, c);
    }

    /// Removes the last character of the search buffer, if any.
    fn pop_search(&mut self)
        ensures
            final(self).search_buffer@ == (if old(self).search_buffer@.len() > 0 {
                old(self).search_buffer@.drop_last()
            } else {
                old(self).search_buffer@
            }),
            final(self).decks == old(self).decks,
            final(self).cards == old(self).cards,
            final(self).focused == old(self).focused,
            final(self).mode == old(self).mode,
            final(self).card_info == old(self).card_info,
            final(self).selected_card_row == old(self).selected_card_row,
            final(self).selected_deck_slot == old(self).selected_deck_slot,
    {
        pop_char(&mut self.search_buffer);
    }

    /// Clamps the selected row into the visible rows.
    fn clamp_selection(&mut self)
        ensures
            final(self).selected_card_row as int == clamp_row(
                old(self).selected_card_row as int,
                visible_spec(old(self).cards.deep_view(), old(self).search_buffer@).len() as int,
            ),
            final(self).decks == old(self).decks,
            final(self).cards == old(self).cards,
            final(self).focused == old(self).focused,
            final(self).mode == old(self).mode,
            final(self).card_info == old(self).card_info,
            final(self).selected_deck_slot == old(self).selected_deck_slot,
            final(self).search_buffer == old(self).search_buffer,
    {
        let vis = self.visible_cards();
        if self.selected_card_row >= vis.len() {
            self.selected_card_row = if vis.len() == 0 {
                0
            } else {
                vis.len() - 1
            };
        }
    }

    /// Opens the review prompt for a card with the computed preview, as the
    /// answer to a [`UiRequest::Schedule`] request.
    pub fn enter_revising(&mut self, card_id: ID, preview: SchedulePreview)
        ensures
            final(self).mode == (Mode::Revising(ReviseCardDetails { id: card_id, preview })),
            final(self).focused == old(self).focused,
            final(self).card_info == old(self).card_info,
            same_lists(*old(self), *final(self)),
    {
        self.mode = Mode::Revising(ReviseCardDetails { id: card_id, preview });
    }
}

} // verus!
