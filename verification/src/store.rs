//! The ordered per-conversation store.
//!
//! A store holds one conversation header and its messages in a persistent
//! vector kept strictly ascending by timestamp key.  `insert_or_update` is
//! the single idempotency primitive: a message whose key is already present
//! replaces the entry at that key; any other message is inserted at the
//! position that keeps the order.

use vstd::prelude::*;
use crate::clock::{Ts, key_lt, key_lt_exec};
use crate::types::{Channel, Message};

verus! {

/// The message container, backed by `imbl::Vector` so mid-sequence inserts
/// stay cheap.  The field is opaque; `msgs` names its contents.
#[verifier::external_body]
pub struct MsgVector {
    inner: imbl::Vector<Message>,
}

/// The messages a `MsgVector` holds, in order.
pub uninterp spec fn msgs(v: MsgVector) -> Seq<Message>;

impl MsgVector {
    /// Relies on `imbl::Vector::new`: a fresh vector is empty.
    #[verifier::external_body]
    pub fn new() -> (v: MsgVector)
        ensures
            msgs(v) == Seq::<Message>::empty(),
    {
        MsgVector { inner: imbl::Vector::new() }
    }

    /// Relies on `imbl::Vector::len`: the number of elements held.
    #[verifier::external_body]
    pub fn len(&self) -> (n: usize)
        ensures
            n == msgs(*self).len(),
    {
        self.inner.len()
    }

    /// Relies on `imbl::Vector::get`: the element at an in-bounds index.
    #[verifier::external_body]
    pub fn get(&self, i: usize) -> (m: &Message)
        requires
            i < msgs(*self).len(),
        ensures
            *m == msgs(*self)[i as int],
    {
        self.inner.get(i).unwrap()
    }

    /// Relies on `imbl::Vector::set`: replaces the element at an in-bounds
    /// index and leaves the rest unchanged.
    #[verifier::external_body]
    pub fn set(&mut self, i: usize, m: Message)
        requires
            i < msgs(*old(self)).len(),
        ensures
            msgs(*final(self)) == msgs(*old(self)).update(i as int, m),
    {
        self.inner.set(i, m);
    }

    /// Relies on `imbl::Vector::insert`: inserts at an index up to the
    /// length, shifting the elements after it.
    #[verifier::external_body]
    pub fn insert(&mut self, i: usize, m: Message)
        requires
            i <= msgs(*old(self)).len(),
        ensures
            msgs(*final(self)) == msgs(*old(self)).insert(i as int, m),
    {
        self.inner.insert(i, m);
    }
}

/// Strictly ascending by timestamp key: no two entries share a key.
pub open spec fn sorted_strict(s: Seq<Message>) -> bool {
    forall|i: int, j: int|
        0 <= i < j < s.len() ==> key_lt(#[trigger] s[i].timestamp, #[trigger] s[j].timestamp)
}

/// What `insert_or_update` produces: the first entry whose key is not below
/// the new message's key is replaced when the keys are equal, and otherwise
/// the new message is placed just before it.
pub open spec fn spec_upsert(s: Seq<Message>, m: Message) -> Seq<Message>
    decreases s.len(),
{
    if s.len() == 0 {
        seq![m]
    } else if key_lt(s[0].timestamp, m.timestamp) {
        seq![s[0]] + spec_upsert(s.drop_first(), m)
    } else if s[0].timestamp == m.timestamp {
        s.update(0, m)
    } else {
        seq![m] + s
    }
}

/// Upserting a whole batch, first element first.
pub open spec fn spec_upsert_all(s: Seq<Message>, batch: Seq<Message>) -> Seq<Message>
    decreases batch.len(),
{
    if batch.len() == 0 {
        s
    } else {
        spec_upsert_all(spec_upsert(s, batch.first()), batch.drop_first())
    }
}

/// `spec_upsert` at an explicit boundary position: if every key before
/// `pos` is below the new key and the entry at `pos` (if any) is not, the
/// result replaces at `pos` on key equality and inserts at `pos` otherwise.
proof fn lemma_upsert_pos(s: Seq<Message>, m: Message, pos: int)
    requires
        0 <= pos <= s.len(),
        forall|k: int| 0 <= k < pos ==> key_lt(#[trigger] s[k].timestamp, m.timestamp),
        pos < s.len() ==> !key_lt(s[pos].timestamp, m.timestamp),
    ensures
        spec_upsert(s, m) == if pos < s.len() && s[pos].timestamp == m.timestamp {
            s.update(pos, m)
        } else {
            s.insert(pos, m)
        },
    decreases pos,
{
    if pos == 0 {
        if s.len() == 0 {
            assert(spec_upsert(s, m) =~= s.insert(0, m));
        } else if s[0].timestamp == m.timestamp {
        } else {
            assert(seq![m] + s =~= s.insert(0, m));
        }
    } else {
        let t = s.drop_first();
        assert(key_lt(s[0].timestamp, m.timestamp));
        assert(forall|k: int| 0 <= k < pos - 1 ==> key_lt(#[trigger] t[k].timestamp, m.timestamp));
        lemma_upsert_pos(t, m, pos - 1);
        if pos < s.len() && s[pos].timestamp == m.timestamp {
            assert(seq![s[0]] + t.update(pos - 1, m) =~= s.update(pos, m));
        } else {
            assert(seq![s[0]] + t.insert(pos - 1, m) =~= s.insert(pos, m));
        }
    }
}

/// Upserting keeps the strict order.
proof fn lemma_upsert_sorted(s: Seq<Message>, m: Message, pos: int)
    requires
        sorted_strict(s),
        0 <= pos <= s.len(),
        forall|k: int| 0 <= k < pos ==> key_lt(#[trigger] s[k].timestamp, m.timestamp),
        pos < s.len() ==> !key_lt(s[pos].timestamp, m.timestamp),
    ensures
        sorted_strict(spec_upsert(s, m)),
{
    lemma_upsert_pos(s, m, pos);
    if pos < s.len() && s[pos].timestamp == m.timestamp {
        let r = s.update(pos, m);
        assert forall|i: int, j: int| 0 <= i < j < r.len() implies key_lt(
            #[trigger] r[i].timestamp,
            #[trigger] r[j].timestamp,
        ) by {
            assert(key_lt(s[i].timestamp, s[j].timestamp));
        }
    } else {
        let r = s.insert(pos, m);
        assert forall|i: int, j: int| 0 <= i < j < r.len() implies key_lt(
            #[trigger] r[i].timestamp,
            #[trigger] r[j].timestamp,
        ) by {
            if pos < s.len() {
                assert(s[pos].timestamp != m.timestamp || !key_lt(s[pos].timestamp, m.timestamp));
                assert(key_lt(m.timestamp, s[pos].timestamp));
            }
            if i < pos && j > pos {
                assert(key_lt(s[i].timestamp, m.timestamp));
                assert(r[j] == s[j - 1]);
            }
        }
    }
}


/// Strict order follows from strict order of neighbours.
proof fn lemma_adjacent_sorted(s: Seq<Message>)
    requires
        forall|i: int|
            0 <= i < s.len() - 1 ==> key_lt(
                #[trigger] s[i].timestamp,
                s[i + 1].timestamp,
            ),
    ensures
        sorted_strict(s),
{
    assert forall|i: int, j: int| 0 <= i < j < s.len() implies key_lt(
        #[trigger] s[i].timestamp,
        #[trigger] s[j].timestamp,
    ) by {
        lemma_key_span(s, i, j);
    }
}

/// A strict chain of neighbours reaches across any span.
proof fn lemma_key_span(s: Seq<Message>, i: int, j: int)
    requires
        forall|k: int|
            0 <= k < s.len() - 1 ==> key_lt(
                #[trigger] s[k].timestamp,
                s[k + 1].timestamp,
            ),
        0 <= i < j < s.len(),
    ensures
        key_lt(s[i].timestamp, s[j].timestamp),
    decreases j - i,
{
    if j > i + 1 {
        lemma_key_span(s, i, j - 1);
        assert(key_lt(s[j - 1].timestamp, s[j].timestamp));
    }
}

/// The store for one conversation: its header and its ordered messages.
pub struct ParsedDex {
    pub header: Channel,
    pub messages: MsgVector,
}

impl ParsedDex {
    /// The messages the store holds, in order.
    pub open spec fn view(&self) -> Seq<Message> {
        msgs(self.messages)
    }

    /// The store invariant: strictly ascending by timestamp key.
    pub open spec fn wf(&self) -> bool {
        sorted_strict(self.view())
    }

    /// An empty store for a conversation.
    pub fn new(header: Channel) -> (r: ParsedDex)
        ensures
            r.view() == Seq::<Message>::empty(),
            r.header == header,
            r.wf(),
    {
        ParsedDex { header, messages: MsgVector::new() }
    }

    /// Number of stored messages.
    pub fn len(&self) -> (n: usize)
        ensures
            n == self.view().len(),
    {
        self.messages.len()
    }

    /// The message at an in-bounds position.
    pub fn get(&self, i: usize) -> (m: &Message)
        requires
            i < self.view().len(),
        ensures
            *m == self.view()[i as int],
    {
        self.messages.get(i)
    }


    /// Whether the stored order is intact: strictly ascending by key.  A
    /// freshly loaded store is checked with this before syncing resumes.
    pub fn check_sorted(&self) -> (r: bool)
        ensures
            r == self.wf(),
    {
        let n: usize = self.messages.len();
        if n == 0 {
            return true;
        }
        let mut i: usize = 0;
        while i < n - 1
            invariant
                0 <= i <= n - 1,
                n == self.view().len(),
                forall|k: int|
                    0 <= k < i ==> key_lt(
                        #[trigger] self.view()[k].timestamp,
                        self.view()[k + 1].timestamp,
                    ),
            decreases n - 1 - i,
        {
            let a = self.messages.get(i);
            let ka: Option<Ts> = match &a.timestamp {
                Some(t) => Some(Ts { secs: t.secs, millis: t.millis }),
                None => None,
            };
            let b = self.messages.get(i + 1);
            if !crate::clock::key_lt_exec(&ka, &b.timestamp) {
                proof {
                    assert(ka == self.view()[i as int].timestamp);
                    assert(!key_lt(
                        self.view()[i as int].timestamp,
                        self.view()[i + 1].timestamp,
                    ));
                }
                return false;
            }
            i = i + 1;
        }
        proof {
            lemma_adjacent_sorted(self.view());
        }
        true
    }

    /// The first position whose key is not below `key`; equal to the length
    /// when every key is below.
    pub fn lower_bound(&self, key: &Option<Ts>) -> (pos: usize)
        requires
            self.wf(),
        ensures
            0 <= pos <= self.view().len(),
            forall|k: int| 0 <= k < pos ==> key_lt(#[trigger] self.view()[k].timestamp, *key),
            pos < self.view().len() ==> !key_lt(self.view()[pos as int].timestamp, *key),
    {
        let mut lo: usize = 0;
        let mut hi: usize = self.messages.len();
        while lo < hi
            invariant
                0 <= lo <= hi <= self.view().len(),
                self.wf(),
                forall|k: int| 0 <= k < lo ==> key_lt(#[trigger] self.view()[k].timestamp, *key),
                forall|k: int|
                    hi <= k < self.view().len() ==> !key_lt(
                        #[trigger] self.view()[k].timestamp,
                        *key,
                    ),
            decreases hi - lo,
        {
            let mid: usize = lo + (hi - lo) / 2;
            let cur = self.messages.get(mid);
            if key_lt_exec(&cur.timestamp, key) {
                proof {
                    assert forall|k: int| 0 <= k < mid + 1 implies key_lt(
                        #[trigger] self.view()[k].timestamp,
                        *key,
                    ) by {
                        if k < mid {
                            assert(key_lt(self.view()[k].timestamp, self.view()[mid as int].timestamp));
                        }
                    }
                }
                lo = mid + 1;
            } else {
                proof {
                    assert forall|k: int| mid <= k < self.view().len() implies !key_lt(
                        #[trigger] self.view()[k].timestamp,
                        *key,
                    ) by {
                        if k > mid {
                            assert(key_lt(self.view()[mid as int].timestamp, self.view()[k].timestamp));
                        }
                    }
                }
                hi = mid;
            }
        }
        lo
    }

    /// The idempotency primitive: replaces the entry sharing the message's
    /// exact key, or inserts the message at the position that keeps the
    /// ascending order.
    pub fn insert_or_update(&mut self, m: Message)
        requires
            old(self).wf(),
        ensures
            final(self).wf(),
            final(self).header == old(self).header,
            final(self).view() == spec_upsert(old(self).view(), m),
    {
        let pos: usize = self.lower_bound(&m.timestamp);
        proof {
            lemma_upsert_pos(self.view(), m, pos as int);
            lemma_upsert_sorted(self.view(), m, pos as int);
        }
        let n: usize = self.messages.len();
        if pos < n {
            let same: bool = {
                let cur = self.messages.get(pos);
                match (&cur.timestamp, &m.timestamp) {
                    (Some(a), Some(b)) => a.secs == b.secs && a.millis == b.millis,
                    (None, None) => true,
                    _ => false,
                }
            };
            if same {
                self.messages.set(pos, m);
                return ;
            }
        }
        self.messages.insert(pos, m);
    }
}

/// Upserting with the same key twice is the same as upserting once with the
/// second message: the later write wins and no duplicate entry appears.
///
/// This holds for every store, whatever its order.
pub proof fn lemma_upsert_idempotent(s: Seq<Message>, m1: Message, m2: Message)
    requires
        m1.timestamp == m2.timestamp,
    ensures
        spec_upsert(spec_upsert(s, m1), m2) == spec_upsert(s, m2),
    decreases s.len(),
{
    if s.len() == 0 {
        assert(spec_upsert(s, m1) =~= seq![m1]);
        assert(spec_upsert(seq![m1], m2) =~= seq![m2]);
        assert(spec_upsert(s, m2) =~= seq![m2]);
    } else if key_lt(s[0].timestamp, m1.timestamp) {
        let t = s.drop_first();
        lemma_upsert_idempotent(t, m1, m2);
        let u1 = spec_upsert(t, m1);
        let lhs1 = seq![s[0]] + u1;
        assert(spec_upsert(s, m1) == lhs1);
        assert(lhs1.len() > 0 && lhs1[0] == s[0]);
        assert(lhs1.drop_first() =~= u1);
        assert(spec_upsert(lhs1, m2) == seq![s[0]] + spec_upsert(u1, m2));
        assert(spec_upsert(s, m2) == seq![s[0]] + spec_upsert(t, m2));
    } else if s[0].timestamp == m1.timestamp {
        let r1 = s.update(0, m1);
        assert(spec_upsert(s, m1) == r1);
        assert(r1[0] == m1);
        assert(!key_lt(m1.timestamp, m2.timestamp));
        assert(spec_upsert(r1, m2) == r1.update(0, m2));
        assert(r1.update(0, m2) =~= s.update(0, m2));
        assert(spec_upsert(s, m2) == s.update(0, m2));
    } else {
        let r1 = seq![m1] + s;
        assert(spec_upsert(s, m1) == r1);
        assert(r1[0] == m1);
        assert(!key_lt(m1.timestamp, m2.timestamp));
        assert(spec_upsert(r1, m2) == r1.update(0, m2));
        assert(r1.update(0, m2) =~= seq![m2] + s);
        assert(spec_upsert(s, m2) == seq![m2] + s);
    }
}

/// In a strictly sorted store, no two entries share a timestamp key.
pub proof fn lemma_sorted_key_unique(s: Seq<Message>, i: int, j: int)
    requires
        sorted_strict(s),
        0 <= i < j < s.len(),
    ensures
        s[i].timestamp != s[j].timestamp,
{
    assert(key_lt(s[i].timestamp, s[j].timestamp));
}

/// Upserting a message whose key is fresh adds exactly that message: the
/// result holds a message iff the store held it or it is the new one.
pub proof fn lemma_upsert_contains(s: Seq<Message>, m: Message)
    requires
        forall|k: int| 0 <= k < s.len() ==> (#[trigger] s[k].timestamp) != m.timestamp,
    ensures
        forall|x: Message| spec_upsert(s, m).contains(x) <==> (s.contains(x) || x == m),
        spec_upsert(s, m).len() == s.len() + 1,
{
    lemma_upsert_len(s, m);
    assert forall|x: Message| spec_upsert(s, m).contains(x) <==> (s.contains(x) || x == m) by {
        lemma_upsert_contains_one(s, m, x);
    }
}

/// Length of an upsert with a fresh key.
proof fn lemma_upsert_len(s: Seq<Message>, m: Message)
    requires
        forall|k: int| 0 <= k < s.len() ==> (#[trigger] s[k].timestamp) != m.timestamp,
    ensures
        spec_upsert(s, m).len() == s.len() + 1,
    decreases s.len(),
{
    if s.len() == 0 {
    } else if key_lt(s[0].timestamp, m.timestamp) {
        let t = s.drop_first();
        assert(forall|k: int| 0 <= k < t.len() ==> (#[trigger] t[k].timestamp) != m.timestamp);
        lemma_upsert_len(t, m);
    } else {
        assert(s[0].timestamp != m.timestamp);
    }
}

/// One message of the upsert-with-fresh-key equivalence.
proof fn lemma_upsert_contains_one(s: Seq<Message>, m: Message, x: Message)
    requires
        forall|k: int| 0 <= k < s.len() ==> (#[trigger] s[k].timestamp) != m.timestamp,
    ensures
        spec_upsert(s, m).contains(x) <==> (s.contains(x) || x == m),
    decreases s.len(),
{
    let r = spec_upsert(s, m);
    if s.len() == 0 {
        if r.contains(x) {
            let k = choose|k: int| 0 <= k < r.len() && r[k] == x;
            assert(x == m);
        }
        if x == m {
            assert(r[0] == m);
            assert(r.contains(x));
        }
    } else if key_lt(s[0].timestamp, m.timestamp) {
        let t = s.drop_first();
        assert(forall|k: int| 0 <= k < t.len() ==> (#[trigger] t[k].timestamp) != m.timestamp);
        lemma_upsert_contains_one(t, m, x);
        let u = spec_upsert(t, m);
        assert(r == seq![s[0]] + u);
        if r.contains(x) {
            let k = choose|k: int| 0 <= k < r.len() && r[k] == x;
            if k == 0 {
                assert(s[0] == x);
                assert(s.contains(x));
            } else {
                assert(u[k - 1] == x);
                assert(u.contains(x));
                if t.contains(x) {
                    let k2 = choose|k2: int| 0 <= k2 < t.len() && t[k2] == x;
                    assert(s[k2 + 1] == x);
                    assert(s.contains(x));
                }
            }
        }
        if s.contains(x) || x == m {
            if x == m {
                assert(u.contains(x));
                let k3 = choose|k3: int| 0 <= k3 < u.len() && u[k3] == x;
                assert(r[k3 + 1] == x);
            } else {
                let k = choose|k: int| 0 <= k < s.len() && s[k] == x;
                if k == 0 {
                    assert(r[0] == x);
                } else {
                    assert(t[k - 1] == x);
                    assert(t.contains(x));
                    assert(u.contains(x));
                    let k3 = choose|k3: int| 0 <= k3 < u.len() && u[k3] == x;
                    assert(r[k3 + 1] == x);
                }
            }
            assert(r.contains(x));
        }
    } else {
        assert(s[0].timestamp != m.timestamp);
        assert(r == seq![m] + s);
        if r.contains(x) {
            let k = choose|k: int| 0 <= k < r.len() && r[k] == x;
            if k > 0 {
                assert(s[k - 1] == x);
                assert(s.contains(x));
            }
        }
        if s.contains(x) {
            let k = choose|k: int| 0 <= k < s.len() && s[k] == x;
            assert(r[k + 1] == x);
            assert(r.contains(x));
        }
        if x == m {
            assert(r[0] == x);
            assert(r.contains(x));
        }
    }
}

/// A strictly sorted store is determined by which messages it holds: two
/// stores, each ascending by timestamp key, holding the same messages are
/// the same sequence.  Hence inserting messages with pairwise distinct keys
/// in any order yields the same final store.
pub proof fn lemma_sorted_unique(s1: Seq<Message>, s2: Seq<Message>)
    requires
        sorted_strict(s1),
        sorted_strict(s2),
        forall|x: Message| s1.contains(x) <==> s2.contains(x),
    ensures
        s1 == s2,
    decreases s1.len(),
{
    if s1.len() == 0 {
        if s2.len() > 0 {
            assert(s2.contains(s2[0]));
            assert(s1.contains(s2[0]));
        }
        assert(s1 =~= s2);
    } else {
        assert(s1.contains(s1[0]));
        assert(s2.contains(s1[0]));
        let j = choose|j: int| 0 <= j < s2.len() && s2[j] == s1[0];
        assert(s2.contains(s2[0]));
        assert(s1.contains(s2[0]));
        let i = choose|i: int| 0 <= i < s1.len() && s1[i] == s2[0];
        if i > 0 && j > 0 {
            assert(key_lt(s1[0].timestamp, s1[i].timestamp));
            assert(key_lt(s2[0].timestamp, s2[j].timestamp));
            assert(false);
        }
        assert(s1[0] == s2[0]);
        let t1 = s1.drop_first();
        let t2 = s2.drop_first();
        assert forall|x: Message| t1.contains(x) <==> t2.contains(x) by {
            lemma_tail_contains(s1, s2, x);
            lemma_tail_contains(s2, s1, x);
        }
        lemma_sorted_unique(t1, t2);
        assert(s1 =~= seq![s1[0]] + t1);
        assert(s2 =~= seq![s2[0]] + t2);
    }
}

/// If two strictly sorted stores share their first entry and hold the same
/// messages, a message of the first tail is in the second tail.
proof fn lemma_tail_contains(s1: Seq<Message>, s2: Seq<Message>, x: Message)
    requires
        sorted_strict(s1),
        sorted_strict(s2),
        s1.len() > 0,
        s2.len() > 0,
        s1[0] == s2[0],
        forall|y: Message| s1.contains(y) <==> s2.contains(y),
    ensures
        s1.drop_first().contains(x) ==> s2.drop_first().contains(x),
{
    let t1 = s1.drop_first();
    let t2 = s2.drop_first();
    if t1.contains(x) {
        let k = choose|k: int| 0 <= k < t1.len() && t1[k] == x;
        assert(s1[k + 1] == x);
        assert(s1.contains(x));
        assert(s2.contains(x));
        let l = choose|l: int| 0 <= l < s2.len() && s2[l] == x;
        if l == 0 {
            assert(x == s1[0]);
            assert(key_lt(s1[0].timestamp, s1[k + 1].timestamp));
            assert(false);
        }
        assert(t2[l - 1] == x);
        assert(t2.contains(x));
    }
}


/// Pairwise distinct timestamp keys.
pub open spec fn distinct_keys(b: Seq<Message>) -> bool {
    forall|i: int, j: int|
        0 <= i < j < b.len() ==> (#[trigger] b[i].timestamp) != (#[trigger] b[j].timestamp)
}

/// Every message of an upsert result was in the store or is the new one.
proof fn lemma_upsert_subset(s: Seq<Message>, m: Message, x: Message)
    requires
        spec_upsert(s, m).contains(x),
    ensures
        s.contains(x) || x == m,
    decreases s.len(),
{
    let r = spec_upsert(s, m);
    if s.len() == 0 {
        let k = choose|k: int| 0 <= k < r.len() && r[k] == x;
    } else if key_lt(s[0].timestamp, m.timestamp) {
        let t = s.drop_first();
        let u = spec_upsert(t, m);
        let k = choose|k: int| 0 <= k < r.len() && r[k] == x;
        if k == 0 {
            assert(s[0] == x);
            assert(s.contains(x));
        } else {
            assert(u[k - 1] == x);
            assert(u.contains(x));
            lemma_upsert_subset(t, m, x);
            if t.contains(x) {
                let k2 = choose|k2: int| 0 <= k2 < t.len() && t[k2] == x;
                assert(s[k2 + 1] == x);
                assert(s.contains(x));
            }
        }
    } else if s[0].timestamp == m.timestamp {
        let k = choose|k: int| 0 <= k < r.len() && r[k] == x;
        if k == 0 {
            assert(x == m);
        } else {
            assert(s[k] == x);
            assert(s.contains(x));
        }
    } else {
        let k = choose|k: int| 0 <= k < r.len() && r[k] == x;
        if k > 0 {
            assert(s[k - 1] == x);
            assert(s.contains(x));
        }
    }
}

/// Upserting keeps a strictly sorted store strictly sorted, wherever the
/// new key falls.
proof fn lemma_upsert_sorted_any(s: Seq<Message>, m: Message)
    requires
        sorted_strict(s),
    ensures
        sorted_strict(spec_upsert(s, m)),
    decreases s.len(),
{
    let r = spec_upsert(s, m);
    if s.len() == 0 {
    } else if key_lt(s[0].timestamp, m.timestamp) {
        let t = s.drop_first();
        let u = spec_upsert(t, m);
        lemma_upsert_sorted_any(t, m);
        assert(r == seq![s[0]] + u);
        assert forall|i: int, j: int| 0 <= i < j < r.len() implies key_lt(
            #[trigger] r[i].timestamp,
            #[trigger] r[j].timestamp,
        ) by {
            if i == 0 {
                assert(u.contains(r[j])) by {
                    assert(u[j - 1] == r[j]);
                }
                lemma_upsert_subset(t, m, r[j]);
                if t.contains(r[j]) {
                    let k = choose|k: int| 0 <= k < t.len() && t[k] == r[j];
                    assert(key_lt(s[0].timestamp, s[k + 1].timestamp));
                }
            } else {
                assert(u[i - 1] == r[i] && u[j - 1] == r[j]);
                assert(key_lt(u[i - 1].timestamp, u[j - 1].timestamp));
            }
        }
    } else if s[0].timestamp == m.timestamp {
        assert forall|i: int, j: int| 0 <= i < j < r.len() implies key_lt(
            #[trigger] r[i].timestamp,
            #[trigger] r[j].timestamp,
        ) by {
            assert(key_lt(s[i].timestamp, s[j].timestamp));
        }
    } else {
        assert(key_lt(m.timestamp, s[0].timestamp));
        assert(r == seq![m] + s);
        assert forall|i: int, j: int| 0 <= i < j < r.len() implies key_lt(
            #[trigger] r[i].timestamp,
            #[trigger] r[j].timestamp,
        ) by {
            if i == 0 && j > 1 {
                assert(key_lt(s[0].timestamp, s[j - 1].timestamp));
            }
            if i > 0 {
                assert(key_lt(s[i - 1].timestamp, s[j - 1].timestamp));
            }
        }
    }
}

/// Folding a batch of fresh, pairwise distinct keys over a sorted store
/// keeps it sorted and adds exactly the batch's messages.
proof fn lemma_fold_adds(s: Seq<Message>, b: Seq<Message>)
    requires
        sorted_strict(s),
        distinct_keys(b),
        forall|i: int, k: int|
            0 <= i < b.len() && 0 <= k < s.len() ==> (#[trigger] b[i].timestamp) != (
            #[trigger] s[k].timestamp),
    ensures
        sorted_strict(spec_upsert_all(s, b)),
        forall|x: Message|
            #[trigger] spec_upsert_all(s, b).contains(x) <==> (s.contains(x) || b.contains(x)),
    decreases b.len(),
{
    if b.len() == 0 {
        assert forall|x: Message| #[trigger]
            spec_upsert_all(s, b).contains(x) <==> (s.contains(x) || b.contains(x)) by {
            if b.contains(x) {
                let k = choose|k: int| 0 <= k < b.len() && b[k] == x;
            }
        }
    } else {
        let m = b.first();
        let s2 = spec_upsert(s, m);
        let b2 = b.drop_first();
        assert(forall|k: int| 0 <= k < s.len() ==> (#[trigger] s[k].timestamp) != m.timestamp);
        lemma_upsert_contains(s, m);
        lemma_upsert_sorted_any(s, m);
        assert(distinct_keys(b2)) by {
            assert(forall|i: int, j: int|
                0 <= i < j < b2.len() ==> (#[trigger] b2[i]) == b[i + 1] && (#[trigger] b2[j]) == b[
                j + 1]);
        }
        assert forall|i: int, k: int|
            0 <= i < b2.len() && 0 <= k < s2.len() implies (#[trigger] b2[i].timestamp) != (
        #[trigger] s2[k].timestamp) by {
            assert(b2[i] == b[i + 1]);
            assert(s2.contains(s2[k]));
            assert(s.contains(s2[k]) || s2[k] == m);
            if s.contains(s2[k]) {
                let w = choose|w: int| 0 <= w < s.len() && s[w] == s2[k];
                assert(b[i + 1].timestamp != s[w].timestamp);
            } else {
                assert(b[0].timestamp != b[i + 1].timestamp);
            }
        }
        lemma_fold_adds(s2, b2);
        assert(spec_upsert_all(s, b) == spec_upsert_all(s2, b2));
        assert forall|x: Message| #[trigger]
            spec_upsert_all(s, b).contains(x) <==> (s.contains(x) || b.contains(x)) by {
            if spec_upsert_all(s2, b2).contains(x) {
                if b2.contains(x) {
                    let k = choose|k: int| 0 <= k < b2.len() && b2[k] == x;
                    assert(b[k + 1] == x);
                    assert(b.contains(x));
                }
                if x == m {
                    assert(b[0] == x);
                    assert(b.contains(x));
                }
            }
            if s.contains(x) {
                assert(s2.contains(x));
            }
            if b.contains(x) {
                let k = choose|k: int| 0 <= k < b.len() && b[k] == x;
                if k == 0 {
                    assert(s2.contains(x));
                } else {
                    assert(b2[k - 1] == x);
                    assert(b2.contains(x));
                }
            }
        }
    }
}

/// Inserting the same messages, each with its own timestamp key, in any
/// order yields the same final store: a store built from an empty one is
/// determined by which messages went in, not by when.
pub proof fn lemma_insert_order_immaterial(b1: Seq<Message>, b2: Seq<Message>)
    requires
        distinct_keys(b1),
        distinct_keys(b2),
        forall|x: Message| b1.contains(x) <==> b2.contains(x),
    ensures
        spec_upsert_all(Seq::empty(), b1) == spec_upsert_all(Seq::empty(), b2),
{
    let e = Seq::<Message>::empty();
    lemma_fold_adds(e, b1);
    lemma_fold_adds(e, b2);
    assert forall|x: Message|
        spec_upsert_all(e, b1).contains(x) <==> spec_upsert_all(e, b2).contains(x) by {
        assert(spec_upsert_all(e, b1).contains(x) <==> (e.contains(x) || b1.contains(x)));
        assert(spec_upsert_all(e, b2).contains(x) <==> (e.contains(x) || b2.contains(x)));
    }
    lemma_sorted_unique(spec_upsert_all(e, b1), spec_upsert_all(e, b2));
}


} // verus!
