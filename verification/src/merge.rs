//! The merge/dedup engine.
//!
//! Historical log candidates carry no canonical id, so equality against the
//! store is approximated: a candidate is a duplicate exactly when some
//! stored message has identical text and a timestamp equal to the
//! candidate's once both are truncated to whole seconds.  A binary-searched
//! window of one second on either side makes the check cheap; it is wide
//! enough to hold every second-equal entry.  A candidate that is not a
//! duplicate is synthesized into a sentinel-id message and merged through
//! the store's idempotent upsert.

use vstd::prelude::*;
use crate::clock::{Ts, key_lt};
use crate::ids::U64ReprStr;
use crate::store::{ParsedDex, spec_upsert};
use crate::text::string_to_chars;
use crate::types::{Attachment, Author, Message};

verus! {

/// A message parsed from a historical log: no id, whole-second timestamp
/// resolution, author known only by display name.
pub struct TempMessage {
    pub timestamp: Ts,
    pub username: String,
    pub text: String,
    pub attachments: Vec<String>,
}

/// Whether a stored message makes the candidate a duplicate: identical text
/// and the same timestamp truncated to whole seconds.
pub open spec fn matches_candidate(m: Message, c: TempMessage) -> bool {
    &&& m.content matches Some(t) && t@ == c.text@
    &&& m.timestamp matches Some(u) && u.secs == c.timestamp.secs
}

/// Whether the store already holds an equivalent of the candidate.
pub open spec fn is_dup(s: Seq<Message>, c: TempMessage) -> bool {
    exists|i: int| 0 <= i < s.len() && matches_candidate(#[trigger] s[i], c)
}

/// Decides `is_dup` by scanning the binary-searched window from one second
/// before the candidate to one second after it.
pub fn is_duplicate(store: &ParsedDex, cand: &TempMessage) -> (r: bool)
    requires
        store.wf(),
        cand.timestamp.wf(),
        i64::MIN < cand.timestamp.secs < i64::MAX,
    ensures
        r == is_dup(store.view(), *cand),
{
    let lo_key: Option<Ts> = Some(
        Ts { secs: cand.timestamp.secs - 1, millis: cand.timestamp.millis },
    );
    let hi_key: Ts = Ts { secs: cand.timestamp.secs + 1, millis: cand.timestamp.millis };
    let lo: usize = store.lower_bound(&lo_key);
    proof {
        assert forall|k: int| 0 <= k < lo implies !matches_candidate(
            #[trigger] store.view()[k],
            *cand,
        ) by {
            assert(key_lt(store.view()[k].timestamp, lo_key));
        }
    }
    let n: usize = store.len();
    let mut j: usize = lo;
    while j < n
        invariant
            store.wf(),
            cand.timestamp.wf(),
            i64::MIN < cand.timestamp.secs < i64::MAX,
            hi_key.secs == cand.timestamp.secs + 1,
            hi_key.millis == cand.timestamp.millis,
            lo <= j <= n == store.view().len(),
            forall|k: int| 0 <= k < j ==> !matches_candidate(#[trigger] store.view()[k], *cand),
        decreases n - j,
    {
        let m: &Message = store.get(j);
        match &m.timestamp {
            Some(u) => {
                if u.secs > hi_key.secs || (u.secs == hi_key.secs && u.millis > hi_key.millis) {
                    proof {
                        assert forall|k: int| j <= k < store.view().len() implies !matches_candidate(
                            #[trigger] store.view()[k],
                            *cand,
                        ) by {
                            if k > j {
                                assert(key_lt(
                                    store.view()[j as int].timestamp,
                                    store.view()[k].timestamp,
                                ));
                            }
                        }
                    }
                    return false;
                }
                let secs_match: bool = u.secs == cand.timestamp.secs;
                let content_match: bool = match &m.content {
                    Some(t) => t.eq(&cand.text),
                    None => false,
                };
                if secs_match && content_match {
                    return true;
                }
            },
            None => {},
        }
        j = j + 1;
    }
    false
}

/// The fields a synthesized message must carry: the sentinel id zero, the
/// candidate's timestamp, text and author name, the resolved author id, one
/// attachment per trailing link with only its source address filled in, and
/// every remote-only field absent.
pub open spec fn spec_synthesized(m: Message, c: TempMessage, author_id: String) -> bool {
    &&& m.id == U64ReprStr(0)
    &&& m.kind == 0
    &&& m.timestamp == Some(c.timestamp)
    &&& m.content == Some(c.text)
    &&& m.author.username == c.username
    &&& m.author.id == author_id
    &&& m.author.avatar is None
    &&& m.author.global_name is None
    &&& m.attachments@.len() == c.attachments@.len()
    &&& (forall|i: int|
        0 <= i < c.attachments@.len() ==> {
            let a = #[trigger] m.attachments@[i];
            &&& a.url == c.attachments@[i]
            &&& a.id@ == "0"@
            &&& a.filename@.len() == 0
            &&& a.height is None
            &&& a.width is None
            &&& a.content_type is None
            &&& a.original_content_type is None
            &&& a.size is None
            &&& a.proxy_url is None
        })
    &&& m.edited_timestamp is None
    &&& m.embeds@.len() == 0
    &&& m.pinned is None
}

/// Builds the placeholder message for a candidate with no stored match.
pub fn synthesize(cand: TempMessage, author_id: String) -> (m: Message)
    ensures
        spec_synthesized(m, cand, author_id),
{
    let mut atts: Vec<Attachment> = Vec::new();
    let mut urls: Vec<String> = cand.attachments;
    let ghost orig = urls@;
    let total: usize = urls.len();
    let mut taken: usize = 0;
    while urls.len() > 0
        invariant
            orig.len() == total,
            taken + urls@.len() == orig.len(),
            urls@ =~= orig.subrange(taken as int, orig.len() as int),
            atts@.len() == taken,
            forall|i: int|
                0 <= i < taken ==> {
                    let a = #[trigger] atts@[i];
                    &&& a.url == orig[i]
                    &&& a.id@ == "0"@
                    &&& a.filename@.len() == 0
                    &&& a.height is None
                    &&& a.width is None
                    &&& a.content_type is None
                    &&& a.original_content_type is None
                    &&& a.size is None
                    &&& a.proxy_url is None
                },
        decreases urls@.len(),
    {
        let url: String = urls.remove(0);
        let zero: Vec<char> = string_to_chars("0");
        let id: String = crate::text::chars_to_string(&zero);
        let empty: Vec<char> = Vec::new();
        let filename: String = crate::text::chars_to_string(&empty);
        atts.push(
            Attachment {
                id,
                filename,
                url,
                height: None,
                width: None,
                content_type: None,
                original_content_type: None,
                size: None,
                proxy_url: None,
            },
        );
        taken = taken + 1;
        proof {
            assert(urls@ =~= orig.subrange(taken as int, orig.len() as int));
        }
    }
    Message {
        id: U64ReprStr(0),
        kind: 0,
        timestamp: Some(cand.timestamp),
        content: Some(cand.text),
        author: Author {
            username: cand.username,
            avatar: None,
            id: author_id,
            global_name: None,
        },
        attachments: atts,
        edited_timestamp: None,
        embeds: Vec::new(),
        pinned: None,
    }
}

/// Merges one candidate: a duplicate changes nothing; anything else is
/// synthesized and upserted at its sorted position.  Returns whether the
/// store gained the candidate.
pub fn merge_candidate(store: &mut ParsedDex, cand: TempMessage, author_id: String) -> (added:
    bool)
    requires
        old(store).wf(),
        cand.timestamp.wf(),
        i64::MIN < cand.timestamp.secs < i64::MAX,
    ensures
        final(store).wf(),
        final(store).header == old(store).header,
        added == !is_dup(old(store).view(), cand),
        !added ==> final(store).view() == old(store).view(),
        added ==> (exists|m: Message|
            {
                &&& #[trigger] spec_synthesized(m, cand, author_id)
                &&& final(store).view() == spec_upsert(old(store).view(), m)
            }),
{
    if is_duplicate(store, &cand) {
        return false;
    }
    let m: Message = synthesize(cand, author_id);
    let ghost mm = m;
    store.insert_or_update(m);
    proof {
        assert(spec_synthesized(mm, cand, author_id) && final(store).view() == spec_upsert(
            old(store).view(),
            mm,
        ));
    }
    true
}

/// Resolution of a display name through the first matching entry of the
/// username-to-id mapping.
pub open spec fn spec_lookup(map: Seq<(String, String)>, name: Seq<char>) -> Option<String>
    decreases map.len(),
{
    if map.len() == 0 {
        None
    } else if map[0].0@ == name {
        Some(map[0].1)
    } else {
        spec_lookup(map.drop_first(), name)
    }
}

/// Looks a display name up in the username-to-id mapping.
pub fn lookup_user(map: &Vec<(String, String)>, name: &String) -> (r: Option<String>)
    ensures
        match r {
            Some(id) => spec_lookup(map@, name@) == Some(id),
            None => spec_lookup(map@, name@) is None,
        },
{
    let mut i: usize = 0;
    proof {
        assert(map@.subrange(0, map@.len() as int) =~= map@);
    }
    while i < map.len()
        invariant
            0 <= i <= map@.len(),
            spec_lookup(map@, name@) == spec_lookup(
                map@.subrange(i as int, map@.len() as int),
                name@,
            ),
        decreases map@.len() - i,
    {
        let entry = &map[i];
        if entry.0.eq(name) {
            let id: String = entry.1.clone();
            return Some(id);
        }
        proof {
            let cur = map@.subrange(i as int, map@.len() as int);
            assert(cur.drop_first() =~= map@.subrange(i + 1, map@.len() as int));
        }
        i = i + 1;
    }
    None
}

/// A synthesized stand-in for a candidate whose author the mapping
/// resolves.
pub open spec fn synthesized_via(m: Message, c: TempMessage, map: Seq<(String, String)>) -> bool {
    match spec_lookup(map, c.username@) {
        Some(a) => spec_synthesized(m, c, a),
        None => false,
    }
}

/// What one merge pass does, candidate by candidate: a duplicate leaves
/// the store alone; any other candidate upserts its synthesized message
/// and counts once.  The pass turns store `s` into store `t` adding
/// `added` messages exactly when this relation holds.
pub open spec fn spec_merge_rel(
    s: Seq<Message>,
    cs: Seq<TempMessage>,
    map: Seq<(String, String)>,
    t: Seq<Message>,
    added: int,
) -> bool
    decreases cs.len(),
{
    if cs.len() == 0 {
        t == s && added == 0
    } else {
        let c = cs[0];
        if is_dup(s, c) {
            spec_merge_rel(s, cs.drop_first(), map, t, added)
        } else {
            exists|m: Message|
                #[trigger] synthesized_via(m, c, map) && spec_merge_rel(
                    spec_upsert(s, m),
                    cs.drop_first(),
                    map,
                    t,
                    added - 1,
                )
        }
    }
}

/// Merges a whole parsed log, candidate by candidate, resolving each author
/// through the mapping.  Every candidate's author must resolve: an
/// unresolved name is a precondition violation of the import pass.  Returns
/// how many candidates were not duplicates and were merged in.
pub fn merge_all(store: &mut ParsedDex, cands: Vec<TempMessage>, map: &Vec<(String, String)>) -> (
    added: usize)
    requires
        old(store).wf(),
        forall|i: int|
            0 <= i < cands@.len() ==> {
                &&& spec_lookup(map@, (#[trigger] cands@[i]).username@) is Some
                &&& cands@[i].timestamp.wf()
                &&& i64::MIN < cands@[i].timestamp.secs < i64::MAX
            },
    ensures
        final(store).wf(),
        final(store).header == old(store).header,
        added <= cands@.len(),
        spec_merge_rel(old(store).view(), cands@, map@, final(store).view(), added as int),
{
    let mut cands = cands;
    let ghost orig = cands@;
    let ghost start = store.view();
    let total: usize = cands.len();
    let mut added: usize = 0;
    let mut done: usize = 0;
    while cands.len() > 0
        invariant
            store.wf(),
            store.header == old(store).header,
            start == old(store).view(),
            orig.len() == total,
            done + cands@.len() == orig.len(),
            cands@ =~= orig.subrange(done as int, orig.len() as int),
            added <= done,
            forall|t: Seq<Message>, a: int|
                #[trigger] spec_merge_rel(
                    store.view(),
                    orig.subrange(done as int, orig.len() as int),
                    map@,
                    t,
                    a,
                ) ==> spec_merge_rel(start, orig, map@, t, a + added),
            forall|i: int|
                0 <= i < orig.len() ==> {
                    &&& spec_lookup(map@, (#[trigger] orig[i]).username@) is Some
                    &&& orig[i].timestamp.wf()
                    &&& i64::MIN < orig[i].timestamp.secs < i64::MAX
                },
        decreases cands@.len(),
    {
        let ghost cur = store.view();
        let ghost rem = orig.subrange(done as int, orig.len() as int);
        let ghost added_old = added as int;
        let cand: TempMessage = cands.remove(0);
        proof {
            assert(cand == orig[done as int]);
            assert(rem[0] == cand);
            assert(rem.drop_first() =~= orig.subrange(done + 1, orig.len() as int));
            assert(cands@ =~= orig.subrange(done + 1, orig.len() as int));
        }
        let ghost rem2 = orig.subrange(done + 1, orig.len() as int);
        let author_id: String = match lookup_user(map, &cand.username) {
            Some(id) => id,
            None => {
                proof {
                    assert(spec_lookup(map@, orig[done as int].username@) is Some);
                }
                // Unreachable: the precondition resolves every author.
                assert(false);
                return added;
            },
        };
        let ghost aid = author_id;
        if merge_candidate(store, cand, author_id) {
            added = added + 1;
            proof {
                let m = choose|m: Message|
                    spec_synthesized(m, cand, aid) && store.view() == spec_upsert(cur, m);
                assert(synthesized_via(m, cand, map@));
                assert forall|t: Seq<Message>, a: int|
                    #[trigger] spec_merge_rel(store.view(), rem2, map@, t, a) implies spec_merge_rel(
                    start,
                    orig,
                    map@,
                    t,
                    a + added_old + 1,
                ) by {
                    assert(spec_merge_rel(cur, rem, map@, t, a + 1)) by {
                        assert(!is_dup(cur, cand));
                        assert(synthesized_via(m, cand, map@) && spec_merge_rel(
                            spec_upsert(cur, m),
                            rem.drop_first(),
                            map@,
                            t,
                            a + 1 - 1,
                        ));
                    }
                }
            }
        } else {
            proof {
                assert forall|t: Seq<Message>, a: int|
                    #[trigger] spec_merge_rel(store.view(), rem2, map@, t, a) implies spec_merge_rel(
                    start,
                    orig,
                    map@,
                    t,
                    a + added_old,
                ) by {
                    assert(spec_merge_rel(cur, rem, map@, t, a));
                }
            }
        }
        done = done + 1;
    }
    proof {
        let rem = orig.subrange(done as int, orig.len() as int);
        assert(rem =~= Seq::<TempMessage>::empty());
        assert(spec_merge_rel(store.view(), rem, map@, store.view(), 0));
    }
    added
}

} // verus!
