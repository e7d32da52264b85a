//! Dialog: starting a conversation from a trigger, paging through it, and
//! the reveal bookkeeping of the page being shown.

use vstd::prelude::*;
use crate::game_text::{has_text_entry, page_text, page_text_view, text_entry_index, Dialog, GameText};
use crate::mob::TriggerEvent;
use crate::state_stack::{GameState, StateStack};

verus! {

/// Dialog content: being triggered opens the dialog this reference names.
#[derive(Debug)]
pub struct DialogReference {
    pub reference: String,
}

/// The dialog being shown, if any.
#[derive(Debug)]
pub struct CurrentDialog(pub Option<Dialog>);

impl Default for CurrentDialog {
    fn default() -> (r: Self)
        ensures
            r.0 matches Option::<Dialog>::None,
    {
        CurrentDialog(None)
    }
}

/// Index of the page being shown.
#[derive(Clone, Copy, Debug, PartialEq, Eq, Structural)]
pub struct CurrentPageIndex(pub usize);

impl Default for CurrentPageIndex {
    fn default() -> (r: Self)
        ensures
            r.0 == 0,
    {
        CurrentPageIndex(0)
    }
}

/// A request to show the page at the carried index.
#[derive(Clone, Copy, Debug, PartialEq, Eq, Structural)]
pub struct PageEvent(pub usize);

/// The text of the page being shown and how much of it is revealed so far.
#[derive(Debug)]
pub struct CurrentPageText {
    pub full_text: String,
    pub current_index: usize,
}

impl Default for CurrentPageText {
    fn default() -> (r: Self)
        ensures
            r.full_text@ == Seq::<char>::empty(),
            r.current_index == 0,
    {
        CurrentPageText { full_text: String::new(), current_index: 0 }
    }
}

/// Turns a page request into the shown page: the page index takes the
/// requested value and, while a dialog is open, the page's span texts are
/// joined into the text to show, with nothing of it revealed yet.
pub fn change_page(
    event: &PageEvent,
    current_page_index: &mut CurrentPageIndex,
    current_page_text: &mut CurrentPageText,
    current_dialog: &CurrentDialog,
)
    requires
        current_dialog.0 matches Some(d) ==> event.0 < d.0@.len(),
    ensures
        final(current_page_index).0 == event.0,
        match current_dialog.0 {
            Some(d) => final(current_page_text).full_text@
                == page_text_view(d.0@[event.0 as int].spans@)
                && final(current_page_text).current_index == 0,
            None => *final(current_page_text) == *old(current_page_text),
        },
{
    current_page_index.0 = event.0;
    match &current_dialog.0 {
        Some(d) => {
            current_page_text.full_text = page_text(&d.0[event.0]);
            current_page_text.current_index = 0;
        },
        None => {},
    }
}

/// What an interact press does to an open dialog.
#[derive(Clone, Copy, Debug, PartialEq, Eq, Structural)]
pub enum DialogAction {
    /// Text is still streaming in: show all of it at once.
    RevealAll,
    /// The page is fully shown and more follow: turn to the carried page.
    NextPage(usize),
    /// The last page is fully shown: close the dialog.
    Close,
}

/// Decides what an interact press does to an open dialog: first it finishes
/// revealing the page, then it turns pages, and on the last page it closes.
pub fn dialog_control(
    total_pages: usize,
    current_index: usize,
    full_text_len: usize,
    revealed: usize,
) -> (r: DialogAction)
    requires
        total_pages >= 1,
        current_index < total_pages,
    ensures
        r == if revealed < full_text_len {
            DialogAction::RevealAll
        } else if current_index < total_pages - 1 {
            DialogAction::NextPage((current_index + 1) as usize)
        } else {
            DialogAction::Close
        },
{
    if revealed < full_text_len {
        DialogAction::RevealAll
    } else if current_index < total_pages - 1 {
        DialogAction::NextPage(current_index + 1)
    } else {
        DialogAction::Close
    }
}

/// Some entry carries a dialog reference for entity `e`.
pub open spec fn has_dialog_ref(refs: Seq<(u64, DialogReference)>, e: u64) -> bool {
    exists|i: int| 0 <= i < refs.len() && (#[trigger] refs[i]).0 == e
}

/// Index of an entry carrying a dialog reference for entity `e`.
pub open spec fn dialog_ref_index(refs: Seq<(u64, DialogReference)>, e: u64) -> int {
    choose|i: int| 0 <= i < refs.len() && (#[trigger] refs[i]).0 == e
}

/// The references (by text) of the dialogs that a batch of trigger events
/// opens: one per event whose triggered entity carries a dialog reference,
/// in event order.
pub open spec fn matched_dialog_refs(
    events: Seq<TriggerEvent>,
    refs: Seq<(u64, DialogReference)>,
) -> Seq<Seq<char>>
    decreases events.len(),
{
    if events.len() == 0 {
        Seq::empty()
    } else {
        let rest = matched_dialog_refs(events.drop_last(), refs);
        let ev = events.last();
        if has_dialog_ref(refs, ev.triggered) {
            rest.push(refs[dialog_ref_index(refs, ev.triggered)].1.reference@)
        } else {
            rest
        }
    }
}

/// A dialog reference that names no entry of the text table: corrupt
/// content, discovered when the trigger fires.
#[derive(Clone, Copy, Debug, PartialEq, Eq, Structural)]
pub struct UnknownTextReference;

/// Finds the dialog reference of entity `e` among the given entries.
fn find_dialog_ref<'a>(refs: &'a Vec<(u64, DialogReference)>, e: u64) -> (r: Option<
    &'a DialogReference,
>)
    requires
        forall|i: int, j: int| 0 <= i < j < refs@.len()
            ==> (#[trigger] refs@[i]).0 != (#[trigger] refs@[j]).0,
    ensures
        match r {
            Some(dr) => has_dialog_ref(refs@, e) && *dr == refs@[dialog_ref_index(refs@, e)].1,
            None => !has_dialog_ref(refs@, e),
        },
{
    let n = refs.len();
    let mut i: usize = 0;
    while i < n
        invariant
            i <= n,
            n == refs@.len(),
            forall|a: int, b: int| 0 <= a < b < refs@.len()
                ==> (#[trigger] refs@[a]).0 != (#[trigger] refs@[b]).0,
            forall|j: int| 0 <= j < i ==> (#[trigger] refs@[j]).0 != e,
        decreases n - i,
    {
        if refs[i].0 == e {
            proof {
                assert(has_dialog_ref(refs@, e));
                let k = dialog_ref_index(refs@, e);
                if k < i {
                    assert(refs@[k].0 != refs@[i as int].0);
                } else if i < k {
                    assert(refs@[i as int].0 != refs@[k].0);
                }
            }
            return Some(&refs[i].1);
        }
        i = i + 1;
    }
    None
}

/// A copy of a dialog, page by page and span by span.
fn clone_dialog(d: &Dialog) -> (r: Dialog)
    ensures
        r@ == d@,
{
    let mut pages: Vec<crate::game_text::Page> = Vec::new();
    let n = d.0.len();
    let mut i: usize = 0;
    while i < n
        invariant
            i <= n,
            n == d.0@.len(),
            pages@.len() == i,
            forall|k: int| 0 <= k < i ==> (#[trigger] pages@[k])@ == d.0@[k]@,
        decreases n - i,
    {
        let page = &d.0[i];
        let mut spans: Vec<crate::game_text::Span> = Vec::new();
        let m = page.spans.len();
        let mut j: usize = 0;
        while j < m
            invariant
                j <= m,
                m == page.spans@.len(),
                spans@.len() == j,
                forall|k: int| 0 <= k < j ==> (#[trigger] spans@[k])@ == page.spans@[k]@,
            decreases m - j,
        {
            let span = crate::game_text::Span {
                text: page.spans[j].text.clone(),
                pausebefore: page.spans[j].pausebefore,
            };
            spans.push(span);
            j = j + 1;
        }
        let copied = crate::game_text::Page {
            speaker: page.speaker.clone(),
            mood: page.mood.clone(),
            spans,
        };
        proof {
            assert(crate::game_text::spans_view(copied.spans@)
                =~= crate::game_text::spans_view(page.spans@)) by {
                assert forall|k: int| 0 <= k < copied.spans@.len()
                    implies crate::game_text::spans_view(copied.spans@)[k]
                        == crate::game_text::spans_view(page.spans@)[k] by {
                    assert(copied.spans@[k]@ == page.spans@[k]@);
                }
            }
            assert(copied@ == (*page)@);
        }
        pages.push(copied);
        i = i + 1;
    }
    let r = Dialog(pages);
    proof {
        assert(r@ =~= d@) by {
            assert forall|k: int| 0 <= k < r.0@.len() implies r@[k] == d@[k] by {
                assert(r.0@[k]@ == d.0@[k]@);
            }
        }
    }
    r
}

/// The matched references of a prefix of the events are a prefix of those of
/// the whole batch.
proof fn lemma_matched_refs_prefix(
    events: Seq<TriggerEvent>,
    refs: Seq<(u64, DialogReference)>,
    i: int,
)
    requires
        0 <= i <= events.len(),
    ensures
        matched_dialog_refs(events.subrange(0, i), refs).len()
            <= matched_dialog_refs(events, refs).len(),
        forall|k: int| 0 <= k < matched_dialog_refs(events.subrange(0, i), refs).len()
            ==> #[trigger] matched_dialog_refs(events, refs)[k]
                == matched_dialog_refs(events.subrange(0, i), refs)[k],
    decreases events.len() - i,
{
    if i == events.len() {
        assert(events.subrange(0, i) =~= events);
    } else {
        lemma_matched_refs_prefix(events, refs, i + 1);
        let si = events.subrange(0, i);
        let si1 = events.subrange(0, i + 1);
        assert(si1.drop_last() =~= si);
        assert(si1.last() == events[i]);
    }
}

/// Starts dialogs from a batch of trigger events.
///
/// Each event whose triggered entity carries a dialog reference looks the
/// reference up in the text table and opens that dialog: the open dialog is
/// replaced — the last one wins — and the dialog state is entered once per
/// opening. A reference missing from the table is a configuration error;
/// the call fails exactly when some triggered reference is unknown. On
/// success the caller is told which state to switch to, if any.
pub fn trigger_dialog(
    events: &Vec<TriggerEvent>,
    dialog_refs: &Vec<(u64, DialogReference)>,
    game_text: &GameText,
    current_dialog: &mut CurrentDialog,
    stack: &mut StateStack,
) -> (r: Result<Option<GameState>, UnknownTextReference>)
    requires
        forall|i: int, j: int| 0 <= i < j < dialog_refs@.len()
            ==> (#[trigger] dialog_refs@[i]).0 != (#[trigger] dialog_refs@[j]).0,
        game_text.wf(),
    ensures
        ({
            let matched = matched_dialog_refs(events@, dialog_refs@);
            &&& (r matches Ok(_) <==> forall|i: int| 0 <= i < matched.len()
                ==> has_text_entry(game_text.entries@, #[trigger] matched[i]))
            &&& (r matches Ok(next) ==> if matched.len() == 0 {
                next matches Option::<GameState>::None
                    && *final(current_dialog) == *old(current_dialog)
                    && final(stack)@ == old(stack)@
            } else {
                next == Some(GameState::Dialog)
                    && final(stack)@.len() == old(stack)@.len() + matched.len()
                    && (forall|j: int| 0 <= j < old(stack)@.len()
                        ==> final(stack)@[j] == old(stack)@[j])
                    && (forall|j: int| old(stack)@.len() <= j < final(stack)@.len()
                        ==> final(stack)@[j] == GameState::Dialog)
                    && (final(current_dialog).0 matches Some(d)
                    && d@ == game_text.entries@[text_entry_index(game_text.entries@, matched.last())].1@)
            })
        }),
{
    let mut next_state: Option<GameState> = None;
    let n = events.len();
    let mut i: usize = 0;
    while i < n
        invariant
            forall|a: int, b: int| 0 <= a < b < dialog_refs@.len()
                ==> (#[trigger] dialog_refs@[a]).0 != (#[trigger] dialog_refs@[b]).0,
            game_text.wf(),
            i <= n,
            n == events@.len(),
            ({
                let matched = matched_dialog_refs(events@.subrange(0, i as int), dialog_refs@);
                &&& forall|k: int| 0 <= k < matched.len()
                    ==> has_text_entry(game_text.entries@, #[trigger] matched[k])
                &&& stack@.len() == old(stack)@.len() + matched.len()
                &&& forall|j: int| 0 <= j < old(stack)@.len() ==> stack@[j] == old(stack)@[j]
                &&& forall|j: int| old(stack)@.len() <= j < stack@.len()
                    ==> stack@[j] == GameState::Dialog
                &&& if matched.len() == 0 {
                    next_state matches Option::<GameState>::None
                        && *current_dialog == *old(current_dialog)
                } else {
                    next_state == Some(GameState::Dialog)
                        && (current_dialog.0 matches Some(d)
                        && d@ == game_text.entries@[text_entry_index(game_text.entries@, matched.last())].1@)
                }
            }),
        decreases n - i,
    {
        proof {
            let pre = events@.subrange(0, i as int);
            let cur = events@.subrange(0, i + 1);
            assert(cur.drop_last() =~= pre);
            assert(cur.last() == events@[i as int]);
        }
        let event = events[i];
        match find_dialog_ref(dialog_refs, event.triggered) {
            Some(dr) => {
                match game_text.get_dialog(&dr.reference) {
                    Some(d) => {
                        current_dialog.0 = Some(clone_dialog(d));
                        let pushed = stack.push(GameState::Dialog);
                        next_state = Some(pushed);
                    },
                    None => {
                        proof {
                            let cur = events@.subrange(0, i + 1);
                            let m_cur = matched_dialog_refs(cur, dialog_refs@);
                            let m = matched_dialog_refs(events@, dialog_refs@);
                            assert(m_cur.last() == dr.reference@);
                            lemma_matched_refs_prefix(events@, dialog_refs@, i + 1);
                            assert(m[m_cur.len() - 1] == dr.reference@);
                        }
                        return Err(UnknownTextReference);
                    },
                }
            },
            None => {},
        }
        i = i + 1;
    }
    proof {
        assert(events@.subrange(0, n as int) =~= events@);
    }
    Ok(next_state)
}

} // verus!
