//! The localized text tables: dialogs made of pages made of spans, looked
//! up by a string reference.

use vstd::prelude::*;

verus! {

/// A run of dialog text shown in one go, optionally after a pause.
#[derive(Debug)]
pub struct Span {
    pub text: String,
    /// A pause before displaying this span, in milliseconds.
    pub pausebefore: u64,
}

impl View for Span {
    type V = (Seq<char>, u64);

    open spec fn view(&self) -> (Seq<char>, u64) {
        (self.text@, self.pausebefore)
    }
}

/// One page of a dialog: who speaks, how, and what.
#[derive(Debug)]
pub struct Page {
    pub speaker: String,
    pub mood: String,
    pub spans: Vec<Span>,
}

/// The views of a span list, in order.
pub open spec fn spans_view(spans: Seq<Span>) -> Seq<(Seq<char>, u64)> {
    spans.map_values(|s: Span| s@)
}

impl View for Page {
    type V = (Seq<char>, Seq<char>, Seq<(Seq<char>, u64)>);

    open spec fn view(&self) -> (Seq<char>, Seq<char>, Seq<(Seq<char>, u64)>) {
        (self.speaker@, self.mood@, spans_view(self.spans@))
    }
}

/// The views of a page list, in order.
pub open spec fn pages_view(pages: Seq<Page>) -> Seq<(Seq<char>, Seq<char>, Seq<(Seq<char>, u64)>)> {
    pages.map_values(|p: Page| p@)
}

/// A dialog: its pages in reading order.
#[derive(Debug)]
pub struct Dialog(pub Vec<Page>);

impl View for Dialog {
    type V = Seq<(Seq<char>, Seq<char>, Seq<(Seq<char>, u64)>)>;

    open spec fn view(&self) -> Seq<(Seq<char>, Seq<char>, Seq<(Seq<char>, u64)>)> {
        pages_view(self.0@)
    }
}

/// The full text of a page: its spans' texts, joined in order.
pub open spec fn page_text_view(spans: Seq<Span>) -> Seq<char>
    decreases spans.len(),
{
    if spans.len() == 0 {
        Seq::empty()
    } else {
        page_text_view(spans.drop_last()) + spans.last().text@
    }
}

/// Joins a page's span texts into the text the page shows.
pub fn page_text(page: &Page) -> (r: String)
    ensures
        r@ == page_text_view(page.spans@),
{
    let mut r = String::new();
    let n = page.spans.len();
    let mut i: usize = 0;
    proof {
        assert(r@ =~= page_text_view(page.spans@.subrange(0, 0)));
    }
    while i < n
        invariant
            i <= n,
            n == page.spans@.len(),
            r@ == page_text_view(page.spans@.subrange(0, i as int)),
        decreases n - i,
    {
        proof {
            let pre = page.spans@.subrange(0, i as int);
            let cur = page.spans@.subrange(0, i + 1);
            assert(cur.drop_last() =~= pre);
            assert(cur.last() == page.spans@[i as int]);
        }
        r.append(page.spans[i].text.as_str());
        i = i + 1;
    }
    proof {
        assert(page.spans@.subrange(0, n as int) =~= page.spans@);
    }
    r
}

/// Some entry's key reads `key`.
pub open spec fn has_text_entry(entries: Seq<(String, Dialog)>, key: Seq<char>) -> bool {
    exists|i: int| 0 <= i < entries.len() && (#[trigger] entries[i]).0@ == key
}

/// Index of an entry whose key reads `key`.
pub open spec fn text_entry_index(entries: Seq<(String, Dialog)>, key: Seq<char>) -> int {
    choose|i: int| 0 <= i < entries.len() && (#[trigger] entries[i]).0@ == key
}

/// The loaded text table: dialogs keyed by reference name.
#[derive(Debug)]
pub struct GameText {
    pub entries: Vec<(String, Dialog)>,
}

impl GameText {
    /// Keys are unique by their text.
    pub open spec fn wf(self) -> bool {
        forall|i: int, j: int| 0 <= i < j < self.entries@.len()
            ==> (#[trigger] self.entries@[i]).0@ != (#[trigger] self.entries@[j]).0@
    }

    /// The dialog a reference names, or nothing for an unknown reference.
    pub fn get_dialog<'a>(&'a self, key: &String) -> (r: Option<&'a Dialog>)
        requires
            self.wf(),
        ensures
            match r {
                Some(d) => has_text_entry(self.entries@, key@)
                    && *d == self.entries@[text_entry_index(self.entries@, key@)].1,
                None => !has_text_entry(self.entries@, key@),
            },
    {
        let n = self.entries.len();
        let mut i: usize = 0;
        while i < n
            invariant
                self.wf(),
                i <= n,
                n == self.entries@.len(),
                forall|j: int| 0 <= j < i ==> (#[trigger] self.entries@[j]).0@ != key@,
            decreases n - i,
        {
            if self.entries[i].0 == *key {
                proof {
                    assert(has_text_entry(self.entries@, key@));
                    let k = text_entry_index(self.entries@, key@);
                    if k < i {
                        assert(self.entries@[k].0@ != self.entries@[i as int].0@);
                    } else if i < k {
                        assert(self.entries@[i as int].0@ != self.entries@[k].0@);
                    }
                }
                return Some(&self.entries[i].1);
            }
            i = i + 1;
        }
        None
    }
}

/// The asset path of the text table for a locale.
pub fn locale_asset_path(locale: &str) -> (r: String)
    ensures
        r@ == "locales/"@ + locale@ + ".ron"@,
{
    let mut r = String::from_str("locales/");
    r.append(locale);
    r.append(".ron");
    r
}

} // verus!
