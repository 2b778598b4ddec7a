//! The per-conversation sync driver, as a state machine.
//!
//! One sync pass repeatedly fetches the page after the cursor, merges every
//! message of the page into the store, advances the cursor, and checkpoints
//! every so many pages; an empty page ends the pass.  The surrounding loop
//! performs the fetches and the flushes; the decisions live here.

use vstd::prelude::*;
use crate::ids::{canonical_digits, u64_digits};
use crate::store::{ParsedDex, spec_upsert, spec_upsert_all};
use crate::text::{chars_to_string, extend_chars, string_to_chars};
use crate::types::{Channel, Message};

verus! {

/// A checkpoint flush happens every this many merged pages.
pub const CHECKPOINT_EVERY: u32 = 100;

/// What the surrounding loop must do next.
#[derive(Debug, Clone, Copy, PartialEq, Eq, Structural)]
pub enum SyncAction {
    /// Fetch the page after `after`; flush the store first when
    /// `checkpoint` is set.
    Continue { after: u64, checkpoint: bool },
    /// The feed is exhausted: flush the store and stop.
    Done,
}

/// The id of the chronologically last stored message, or zero for an empty
/// store: where fetching resumes.
pub open spec fn initial_cursor(s: Seq<Message>) -> u64 {
    if s.len() == 0 {
        0
    } else {
        s.last().id.0
    }
}

/// The cursor after a page: the old cursor raised to the ids of the page's
/// first and last messages, whichever ordering the feed uses.
pub open spec fn next_cursor(c: u64, page: Seq<Message>) -> u64
    recommends
        page.len() > 0,
{
    let a = if page.first().id.0 > c {
        page.first().id.0
    } else {
        c
    };
    if page.last().id.0 > a {
        page.last().id.0
    } else {
        a
    }
}

/// One conversation's sync pass.
pub struct SyncDriver {
    /// The store being filled.
    pub store: ParsedDex,
    /// Fetches resume after this message id.
    pub cursor: u64,
    /// Pages merged so far in this pass.
    pub pages: u32,
    /// Whether an empty page has ended the pass.
    pub done: bool,
}

impl SyncDriver {
    /// The store keeps its order throughout the pass.
    pub open spec fn wf(&self) -> bool {
        self.store.wf()
    }

    /// Starts a pass over a loaded store: the cursor is re-derived from the
    /// store's own last entry, never taken from remote metadata.
    pub fn start(store: ParsedDex) -> (d: SyncDriver)
        requires
            store.wf(),
        ensures
            d.wf(),
            d.store == store,
            d.cursor == initial_cursor(store.view()),
            d.pages == 0,
            !d.done,
    {
        let n: usize = store.len();
        let cursor: u64 = if n == 0 {
            0
        } else {
            store.get(n - 1).id.0
        };
        SyncDriver { store, cursor, pages: 0, done: false }
    }

    /// The cheap no-op fast path: skip the whole pass when the remote
    /// last-message hint equals the locally derived cursor.
    pub fn should_skip(&self, hint: Option<u64>) -> (r: bool)
        ensures
            r == (hint == Some(self.cursor)),
    {
        match hint {
            Some(h) => h == self.cursor,
            None => false,
        }
    }

    /// Feeds one fetched page to the driver.  An empty page ends the pass
    /// and changes nothing else; otherwise every message is merged through
    /// the idempotent upsert, the cursor advances to the largest id seen at
    /// the page's ends, and the action says whether a checkpoint is due.
    pub fn on_page(&mut self, page: Vec<Message>) -> (a: SyncAction)
        requires
            old(self).wf(),
            !old(self).done,
            old(self).pages < u32::MAX,
        ensures
            final(self).wf(),
            final(self).store.header == old(self).store.header,
            final(self).cursor >= old(self).cursor,
            page@.len() == 0 ==> {
                &&& a == SyncAction::Done
                &&& final(self).done
                &&& final(self).store.view() == old(self).store.view()
                &&& final(self).cursor == old(self).cursor
                &&& final(self).pages == old(self).pages
            },
            page@.len() > 0 ==> {
                &&& !final(self).done
                &&& final(self).store.view() == spec_upsert_all(old(self).store.view(), page@)
                &&& final(self).cursor == next_cursor(old(self).cursor, page@)
                &&& final(self).pages == old(self).pages + 1
                &&& a == (SyncAction::Continue {
                    after: final(self).cursor,
                    checkpoint: final(self).pages % CHECKPOINT_EVERY == 0,
                })
            },
    {
        let mut page = page;
        if page.len() == 0 {
            self.done = true;
            return SyncAction::Done;
        }
        let first_id: u64 = page[0].id.0;
        let last_id: u64 = page[page.len() - 1].id.0;
        let ghost orig = page@;
        let ghost start = self.store.view();
        let mut i: usize = 0;
        while page.len() > 0
            invariant
                self.store.wf(),
                self.store.header == old(self).store.header,
                self.cursor == old(self).cursor,
                self.pages == old(self).pages,
                self.done == old(self).done,
                orig.len() <= usize::MAX,
                i + page@.len() == orig.len(),
                page@ =~= orig.subrange(i as int, orig.len() as int),
                spec_upsert_all(self.store.view(), page@) == spec_upsert_all(start, orig),
            decreases page@.len(),
        {
            let ghost before = self.store.view();
            let m: Message = page.remove(0);
            let ghost rest = page@;
            self.store.insert_or_update(m);
            proof {
                assert(spec_upsert_all(before, seq![m] + rest) == spec_upsert_all(
                    spec_upsert(before, m),
                    rest,
                )) by {
                    assert((seq![m] + rest).first() == m);
                    assert((seq![m] + rest).drop_first() =~= rest);
                }
                assert(seq![m] + rest =~= orig.subrange(i as int, orig.len() as int));
                assert(rest =~= orig.subrange(i + 1, orig.len() as int));
            }
            i = i + 1;
        }
        proof {
            assert(spec_upsert_all(self.store.view(), page@) == self.store.view());
        }
        let mut c: u64 = self.cursor;
        if first_id > c {
            c = first_id;
        }
        if last_id > c {
            c = last_id;
        }
        self.cursor = c;
        self.pages = self.pages + 1;
        SyncAction::Continue { after: c, checkpoint: self.pages % CHECKPOINT_EVERY == 0 }
    }
}


/// The store file path of a conversation: direct channels live under a
/// shared directory, guild channels under their guild's own.
pub fn store_path(c: &Channel) -> (r: String)
    ensures
        match c {
            Channel::DMChannel(dm) => exists|cd: Seq<char>|
                #[trigger] canonical_digits(cd, dm.id.0 as int) && r@ == "db/DMs/"@ + cd
                    + ".dex"@,
            Channel::TextChannel(t) => exists|gd: Seq<char>, cd: Seq<char>|
                #[trigger] canonical_digits(gd, t.guild_id.0 as int) && #[trigger] canonical_digits(
                    cd,
                    t.id.0 as int,
                ) && r@ == "db/"@ + gd + "/"@ + cd + ".dex"@,
        },
{
    let mut out: Vec<char> = Vec::new();
    match c {
        Channel::DMChannel(dm) => {
            let head = string_to_chars("db/DMs/");
            extend_chars(&mut out, &head);
            let id_digits = u64_digits(dm.id.0);
            extend_chars(&mut out, &id_digits);
            let tail = string_to_chars(".dex");
            extend_chars(&mut out, &tail);
            proof {
                assert(out@ == "db/DMs/"@ + id_digits@ + ".dex"@);
            }
            chars_to_string(&out)
        },
        Channel::TextChannel(t) => {
            let head = string_to_chars("db/");
            extend_chars(&mut out, &head);
            let gd = u64_digits(t.guild_id.0);
            extend_chars(&mut out, &gd);
            let sep = string_to_chars("/");
            extend_chars(&mut out, &sep);
            let cd = u64_digits(t.id.0);
            extend_chars(&mut out, &cd);
            let tail = string_to_chars(".dex");
            extend_chars(&mut out, &tail);
            proof {
                assert(out@ == "db/"@ + gd@ + "/"@ + cd@ + ".dex"@);
            }
            chars_to_string(&out)
        },
    }
}

} // verus!
