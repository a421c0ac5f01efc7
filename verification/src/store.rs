//! The shared store: an insertion-ordered, append-only collection of posts.
//!
//! [`Tweets`] owns the one mutable sequence. Appending is the only write,
//! and reading hands out an independent copy sorted most-recent-first:
//! descending by creation instant, and among equal instants the later
//! appended post comes first, so the order is a deterministic function of
//! the stored sequence.

use vstd::prelude::*;

use crate::record::{ts_is_earlier, ts_le, ts_lt, Tweet};

verus! {

/// `s` is ordered most-recent-first: no later entry has a strictly later
/// creation instant than an earlier one.
pub open spec fn sorted_recent_first(s: Seq<Tweet>) -> bool {
    forall|i: int, j: int|
        0 <= i <= j < s.len() ==> ts_le(#[trigger] s[j].created_at, #[trigger] s[i].created_at)
}

/// Where `t` lands in `s`: before the first entry whose instant is not
/// strictly later than `t`'s. On a sequence that is already ordered
/// most-recent-first this places `t` ahead of every entry with the same
/// instant, so of two equal instants the later-inserted post comes first.
pub open spec fn insert_recent_first(s: Seq<Tweet>, t: Tweet) -> Seq<Tweet>
    decreases s.len(),
{
    if s.len() == 0 {
        seq![t]
    } else if ts_lt(t.created_at, s[0].created_at) {
        seq![s[0]] + insert_recent_first(s.drop_first(), t)
    } else {
        seq![t] + s
    }
}

/// The snapshot order of a stored sequence: each post in turn, in insertion
/// order, placed by [`insert_recent_first`].
pub open spec fn sort_recent_first(s: Seq<Tweet>) -> Seq<Tweet>
    decreases s.len(),
{
    if s.len() == 0 {
        Seq::empty()
    } else {
        insert_recent_first(sort_recent_first(s.drop_last()), s.last())
    }
}

/// No two entries of `s` share an identifier.
pub open spec fn distinct_ids(s: Seq<Tweet>) -> bool {
    forall|i: int, j: int| 0 <= i < j < s.len() ==> (#[trigger] s[i].id)@ != (#[trigger] s[j].id)@
}

/// The store after a run of appends, each applied in turn: `rs` are the
/// appended records, oldest first, as some serial order of the calls minted
/// them.
pub open spec fn after_appends(s: Seq<Tweet>, rs: Seq<Tweet>) -> Seq<Tweet>
    decreases rs.len(),
{
    if rs.len() == 0 {
        s
    } else {
        after_appends(s.push(rs[0]), rs.drop_first())
    }
}

/// Law: appending a record whose identifier differs from every stored one
/// keeps the store's identifiers pairwise distinct. Uniqueness of the
/// identifiers therefore rests only on each minted identifier being fresh,
/// which the identifier generator provides with overwhelming probability.
pub proof fn lemma_fresh_append_keeps_ids_distinct(s: Seq<Tweet>, t: Tweet)
    requires
        distinct_ids(s),
        forall|i: int| 0 <= i < s.len() ==> (#[trigger] s[i].id)@ != t.id@,
    ensures
        distinct_ids(s.push(t)),
{
    let p = s.push(t);
    assert forall|i: int, j: int| 0 <= i < j < p.len() implies (#[trigger] p[i].id)@ != (
    #[trigger] p[j].id)@ by {
        if j == s.len() {
            assert(p[i] == s[i]);
            assert(p[j] == t);
        } else {
            assert(p[i] == s[i]);
            assert(p[j] == s[j]);
        }
    }
}

/// Law: any serial order of a batch of appends adds exactly the appended
/// records, in that order, after the existing ones — none lost, none
/// duplicated. In particular the store grows by exactly the number of
/// appends.
pub proof fn lemma_after_appends(s: Seq<Tweet>, rs: Seq<Tweet>)
    ensures
        after_appends(s, rs) == s + rs,
        after_appends(s, rs).len() == s.len() + rs.len(),
    decreases rs.len(),
{
    if rs.len() == 0 {
        assert(s + rs =~= s);
    } else {
        lemma_after_appends(s.push(rs[0]), rs.drop_first());
        assert(s.push(rs[0]) + rs.drop_first() =~= s + rs);
    }
}

/// Law: a batch of appends whose records carry pairwise-distinct
/// identifiers, none equal to a stored one, leaves the store's identifiers
/// pairwise distinct, whatever serial order the appends ran in.
pub proof fn lemma_appends_keep_ids_distinct(s: Seq<Tweet>, rs: Seq<Tweet>)
    requires
        distinct_ids(s),
        distinct_ids(rs),
        forall|i: int, j: int|
            0 <= i < s.len() && 0 <= j < rs.len() ==> (#[trigger] s[i].id)@ != (
            #[trigger] rs[j].id)@,
    ensures
        distinct_ids(after_appends(s, rs)),
{
    lemma_after_appends(s, rs);
    let c = s + rs;
    assert forall|i: int, j: int| 0 <= i < j < c.len() implies (#[trigger] c[i].id)@ != (
    #[trigger] c[j].id)@ by {
        if j < s.len() {
            assert(c[i] == s[i]);
            assert(c[j] == s[j]);
        } else if i < s.len() {
            assert(c[i] == s[i]);
            assert(c[j] == rs[j - s.len()]);
        } else {
            assert(c[i] == rs[i - s.len()]);
            assert(c[j] == rs[j - s.len()]);
        }
    }
}

/// Law: reading is idempotent. Two snapshots of one store state are the
/// same sequence, contents and order alike, because the snapshot order is a
/// function of the stored sequence.
pub proof fn lemma_snapshot_idempotent(s: Seq<Tweet>, r1: Seq<Tweet>, r2: Seq<Tweet>)
    requires
        r1 == sort_recent_first(s),
        r2 == sort_recent_first(s),
    ensures
        r1 == r2,
{
}

/// Inserting keeps the most-recent-first order and adds exactly the one
/// entry.
proof fn lemma_insert_recent_first(s: Seq<Tweet>, t: Tweet)
    requires
        sorted_recent_first(s),
    ensures
        sorted_recent_first(insert_recent_first(s, t)),
        insert_recent_first(s, t).to_multiset() == s.to_multiset().insert(t),
        insert_recent_first(s, t).len() == s.len() + 1,
    decreases s.len(),
{
    if s.len() == 0 {
        assert(insert_recent_first(s, t) =~= seq![t]);
        assert(seq![t].to_multiset() =~= s.to_multiset().insert(t)) by {
            seq![t].to_multiset_ensures();
            assert(seq![t] =~= Seq::<Tweet>::empty().push(t));
            Seq::<Tweet>::empty().to_multiset_ensures();
            assert(s =~= Seq::<Tweet>::empty());
        }
    } else if ts_lt(t.created_at, s[0].created_at) {
        let rest = s.drop_first();
        assert(sorted_recent_first(rest)) by {
            assert(forall|i: int, j: int|
                0 <= i <= j < rest.len() ==> ts_le(#[trigger] rest[j].created_at,
                    #[trigger] rest[i].created_at)) by {
                assert(forall|i: int, j: int|
                    0 <= i <= j < rest.len() ==> rest[i] == s[i + 1] && rest[j] == s[j + 1]);
            }
        }
        lemma_insert_recent_first(rest, t);
        let tail = insert_recent_first(rest, t);
        let whole = insert_recent_first(s, t);
        assert(whole =~= seq![s[0]] + tail);
        // every entry of the new tail is `t` or an entry of `rest`, so the
        // head still bounds it from above
        assert forall|i: int, j: int| 0 <= i <= j < whole.len() implies ts_le(
            #[trigger] whole[j].created_at,
            #[trigger] whole[i].created_at,
        ) by {
            tail.to_multiset_ensures();
            rest.to_multiset_ensures();
            if i == 0 {
                if j > 0 {
                    let x = tail[j - 1];
                    assert(tail.to_multiset().contains(x));
                    assert(rest.to_multiset().insert(t).contains(x));
                    if x == t {
                        assert(ts_le(x.created_at, s[0].created_at));
                    } else {
                        assert(rest.to_multiset().contains(x));
                        let k = choose|k: int| 0 <= k < rest.len() && rest[k] == x;
                        assert(s[k + 1] == x);
                        assert(ts_le(x.created_at, s[0].created_at));
                    }
                }
            } else {
                assert(whole[i] == tail[i - 1]);
                assert(whole[j] == tail[j - 1]);
            }
        }
        assert(whole.to_multiset() =~= s.to_multiset().insert(t)) by {
            assert(whole =~= tail.insert(0, s[0]));
            vstd::seq_lib::to_multiset_insert(tail, 0, s[0]);
            assert(s =~= rest.insert(0, s[0]));
            vstd::seq_lib::to_multiset_insert(rest, 0, s[0]);
            assert(tail.to_multiset() =~= rest.to_multiset().insert(t));
            assert(rest.to_multiset().insert(t).insert(s[0]) =~= rest.to_multiset().insert(
                s[0],
            ).insert(t));
        }
    } else {
        let whole = insert_recent_first(s, t);
        assert(whole =~= seq![t] + s);
        assert forall|i: int, j: int| 0 <= i <= j < whole.len() implies ts_le(
            #[trigger] whole[j].created_at,
            #[trigger] whole[i].created_at,
        ) by {
            if i == 0 && j > 0 {
                assert(whole[j] == s[j - 1]);
                assert(ts_le(s[j - 1].created_at, s[0].created_at));
                assert(ts_le(s[0].created_at, t.created_at));
            }
        }
        assert(whole.to_multiset() =~= s.to_multiset().insert(t)) by {
            assert(whole =~= s.insert(0, t));
            vstd::seq_lib::to_multiset_insert(s, 0, t);
        }
    }
}

/// The snapshot order is ordered most-recent-first and holds exactly the
/// stored entries.
pub proof fn lemma_sort_recent_first(s: Seq<Tweet>)
    ensures
        sorted_recent_first(sort_recent_first(s)),
        sort_recent_first(s).to_multiset() == s.to_multiset(),
        sort_recent_first(s).len() == s.len(),
    decreases s.len(),
{
    if s.len() == 0 {
        assert(s =~= Seq::<Tweet>::empty());
        assert(sort_recent_first(s) =~= Seq::<Tweet>::empty());
    } else {
        let head = s.drop_last();
        lemma_sort_recent_first(head);
        lemma_insert_recent_first(sort_recent_first(head), s.last());
        assert(sort_recent_first(s).to_multiset() == head.to_multiset().insert(s.last()));
        assert(s =~= head.push(s.last()));
        vstd::seq_lib::to_multiset_build(head, s.last());
        assert(s.to_multiset() == head.push(s.last()).to_multiset());
        assert(head.push(s.last()).to_multiset() =~= head.to_multiset().insert(s.last()));
    }
}

/// When `t` belongs at position `k` of `s` — every earlier entry is strictly
/// later than `t`, and the entry at `k`, if any, is not — the placement is a
/// plain sequence insertion at `k`.
proof fn lemma_insert_recent_first_at(s: Seq<Tweet>, t: Tweet, k: int)
    requires
        0 <= k <= s.len(),
        forall|i: int| 0 <= i < k ==> ts_lt(t.created_at, #[trigger] s[i].created_at),
        k < s.len() ==> !ts_lt(t.created_at, s[k].created_at),
    ensures
        insert_recent_first(s, t) == s.insert(k, t),
    decreases k,
{
    if k == 0 {
        assert(insert_recent_first(s, t) =~= s.insert(0, t));
    } else {
        let rest = s.drop_first();
        assert(forall|i: int| 0 <= i < k - 1 ==> ts_lt(t.created_at, #[trigger] rest[i].created_at))
            by {
            assert(forall|i: int| 0 <= i < k - 1 ==> rest[i] == s[i + 1]);
        }
        assert(k - 1 < rest.len() ==> !ts_lt(t.created_at, rest[k - 1].created_at));
        lemma_insert_recent_first_at(rest, t, k - 1);
        assert(insert_recent_first(s, t) =~= seq![s[0]] + rest.insert(k - 1, t));
        assert(seq![s[0]] + rest.insert(k - 1, t) =~= s.insert(k, t));
    }
}

/// Place `t` into `out` as [`insert_recent_first`] describes.
fn insert_sorted(out: &mut Vec<Tweet>, t: Tweet)
    ensures
        final(out)@ == insert_recent_first(old(out)@, t),
{
    let mut k: usize = 0;
    while k < out.len() && ts_is_earlier(&t.created_at, &out[k].created_at)
        invariant
            k <= out@.len(),
            forall|i: int| 0 <= i < k ==> ts_lt(t.created_at, #[trigger] out@[i].created_at),
        decreases out@.len() - k,
    {
        k += 1;
    }
    proof {
        lemma_insert_recent_first_at(out@, t, k as int);
    }
    out.insert(k, t);
}

/// The store itself: the one exclusively owned, mutable sequence of posts,
/// insertion-ordered and append-only.
#[derive(Debug)]
pub struct Tweets {
    pub tweets: Vec<Tweet>,
}

impl Tweets {
    /// An empty store, as constructed once at process start.
    pub fn new() -> (r: Tweets)
        ensures
            r.tweets@ == Seq::<Tweet>::empty(),
    {
        Tweets { tweets: Vec::new() }
    }

    /// Append a post built from `message`, or do nothing when the message
    /// is absent. The store's sequence grows by exactly the returned record
    /// in the first case and is left untouched in the second.
    pub fn append_if_present(&mut self, message: Option<String>) -> (r: Option<Tweet>)
        ensures
            message is None ==> r is None && final(self).tweets@ == old(self).tweets@,
            message is Some ==> r is Some && final(self).tweets@ == old(self).tweets@.push(
                r->Some_0,
            ) && r->Some_0.message == message->Some_0,
            message is Some ==> r->Some_0.id@.len() == 36,
    {
        match message {
            Some(m) => {
                let t = Tweet::new(m);
                self.tweets.push(t.clone());
                Some(t)
            },
            None => None,
        }
    }

    /// An independent copy of every stored post, ordered most-recent-first:
    /// descending by creation instant, the later-appended post first among
    /// equal instants. The order is exactly [`sort_recent_first`] of the
    /// stored sequence, so it holds every stored post once and nothing else.
    pub fn snapshot_recent_first(&self) -> (r: Vec<Tweet>)
        ensures
            r@ == sort_recent_first(self.tweets@),
            sorted_recent_first(r@),
            r@.to_multiset() == self.tweets@.to_multiset(),
            r@.len() == self.tweets@.len(),
    {
        let mut out: Vec<Tweet> = Vec::new();
        let mut i: usize = 0;
        while i < self.tweets.len()
            invariant
                i <= self.tweets@.len(),
                out@ == sort_recent_first(self.tweets@.take(i as int)),
            decreases self.tweets@.len() - i,
        {
            let t = self.tweets[i].clone();
            insert_sorted(&mut out, t);
            proof {
                let taken = self.tweets@.take(i + 1);
                assert(taken.drop_last() =~= self.tweets@.take(i as int));
                assert(taken.last() == self.tweets@[i as int]);
            }
            i += 1;
        }
        proof {
            assert(self.tweets@.take(self.tweets@.len() as int) =~= self.tweets@);
            lemma_sort_recent_first(self.tweets@);
        }
        out
    }
}

} // verus!
