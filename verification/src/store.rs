//! The ephemeral result store: a token-addressed cache of result tables
//! with per-entry expiry, a capacity bound with oldest-first eviction, and
//! single-use destructive consumption. A store is an explicitly
//! constructed value; a process that wants one shared instance puts it
//! behind its own lock.

use vstd::prelude::*;

use crate::table::{ParsedTable, TableError, table_valid};
use crate::text::{hex_chars, hex_seq, lemma_hex_seq_injective, string_from_chars};

verus! {

/// The default capacity bound of a store.
pub const MAX_ENTRIES: usize = 1000;

/// The time-to-live given to tokens issued for result handoff, in
/// milliseconds.
pub const RESULT_TOKEN_TTL_MS: u64 = 300000;

/// One parked payload: its token, its expiry deadline, when it was last
/// touched, and the table itself.
pub struct StoreEntry {
    pub token: String,
    pub deadline: u64,
    pub last_access: u64,
    pub value: ParsedTable,
}

/// A token-addressed store with a capacity bound and a token counter.
pub struct TokenStore {
    pub max_entries: usize,
    pub counter: u64,
    pub entries: Vec<StoreEntry>,
}

/// Why a token could not be consumed.
#[derive(Debug, PartialEq)]
pub enum StoreError {
    /// No live entry carries this token.
    UnknownToken,
    /// The entry was found but its deadline has passed.
    ExpiredToken,
    /// The parked table broke the structural invariant.
    InvalidPayload { detail: TableError },
}

/// The text of a token: the timestamp and the counter in hexadecimal,
/// dash-joined so the counter breaks ties at identical timestamps.
pub open spec fn token_text(now_ms: u64, counter: u64) -> Seq<char> {
    hex_seq(now_ms as nat) + seq!['-'] + hex_seq(counter as nat)
}

/// What a sweep leaves: the entries whose deadline has not passed.
pub open spec fn sweep_spec(s: Seq<StoreEntry>, now: u64) -> Seq<StoreEntry>
    decreases s.len(),
{
    if s.len() == 0 {
        Seq::empty()
    } else {
        let pre = sweep_spec(s.drop_last(), now);
        if s.last().deadline >= now {
            pre.push(s.last())
        } else {
            pre
        }
    }
}

/// The first position of the smallest `last_access`.
pub open spec fn min_idx(s: Seq<StoreEntry>) -> int
    decreases s.len(),
{
    if s.len() <= 1 {
        0
    } else {
        let m = min_idx(s.drop_last());
        if s.last().last_access < s[m].last_access {
            s.len() - 1
        } else {
            m
        }
    }
}

proof fn lemma_min_idx_min(s: Seq<StoreEntry>)
    requires
        s.len() >= 1,
    ensures
        0 <= min_idx(s) < s.len(),
        forall|k: int| 0 <= k < s.len() ==> s[min_idx(s)].last_access <= #[trigger] s[
            k
        ].last_access,
        forall|k: int| 0 <= k < min_idx(s) ==> (#[trigger] s[k]).last_access > s[
            min_idx(s)
        ].last_access,
    decreases s.len(),
{
    if s.len() > 1 {
        let d = s.drop_last();
        lemma_min_idx_min(d);
        let m = min_idx(d);
        assert(forall|k: int| 0 <= k < d.len() ==> #[trigger] d[k] == s[k]);
        assert forall|k: int| 0 <= k < s.len() implies s[min_idx(s)].last_access <= #[trigger] s[
            k
        ].last_access by {
            if k < s.len() - 1 {
                assert(d[m].last_access <= d[k].last_access);
            }
        }
        assert forall|k: int| 0 <= k < min_idx(s) implies (#[trigger] s[k]).last_access > s[
            min_idx(s)
        ].last_access by {
            if min_idx(s) == s.len() - 1 {
                assert(d[m].last_access <= d[k].last_access);
            } else {
                assert(d[k].last_access > d[m].last_access);
            }
        }
    }
}

/// What eviction leaves: entries removed oldest-by-last-access first,
/// earliest position first among ties, until the bound holds.
pub open spec fn evict_spec(s: Seq<StoreEntry>, max: nat) -> Seq<StoreEntry>
    decreases s.len(),
{
    if s.len() <= max {
        s
    } else {
        let m = min_idx(s);
        // the clamp only keeps the recursion visibly well-founded; the
        // index is in range whenever the store is non-empty
        let mm = if 0 <= m < s.len() {
            m
        } else {
            0
        };
        evict_spec(s.remove(mm), max)
    }
}

/// The entry a token addresses: the latest one pushed under it.
pub open spec fn lookup_spec(s: Seq<StoreEntry>, t: Seq<char>) -> Option<StoreEntry>
    decreases s.len(),
{
    if s.len() == 0 {
        None
    } else if s.last().token@ == t {
        Some(s.last())
    } else {
        lookup_spec(s.drop_last(), t)
    }
}

/// The store without the entry the token addresses.
pub open spec fn remove_last_match(s: Seq<StoreEntry>, t: Seq<char>) -> Seq<StoreEntry>
    decreases s.len(),
{
    if s.len() == 0 {
        s
    } else if s.last().token@ == t {
        s.drop_last()
    } else {
        remove_last_match(s.drop_last(), t).push(s.last())
    }
}

/// Has no entry been touched after `now`?
pub open spec fn all_access_le(s: Seq<StoreEntry>, now: u64) -> bool {
    forall|i: int| 0 <= i < s.len() ==> (#[trigger] s[i]).last_access <= now
}

/// Do all entries carry pairwise different tokens?
pub open spec fn tokens_distinct(s: Seq<StoreEntry>) -> bool {
    forall|i: int, j: int| 0 <= i < j < s.len() ==> s[i].token@ != s[j].token@
}

/// The counter after one issue, wrapping at the top.
pub open spec fn counter_next(c: u64) -> u64 {
    if c == u64::MAX {
        0
    } else {
        (c + 1) as u64
    }
}

/// Tokens issued at one timestamp never collide: the counter alone breaks
/// the tie.
pub proof fn lemma_token_distinct(now_ms: u64, c1: u64, c2: u64)
    requires
        c1 != c2,
    ensures
        token_text(now_ms, c1) != token_text(now_ms, c2),
{
    if token_text(now_ms, c1) == token_text(now_ms, c2) {
        let p = hex_seq(now_ms as nat).len() as int;
        let t1 = token_text(now_ms, c1);
        let t2 = token_text(now_ms, c2);
        assert(t1.len() == t2.len());
        assert(t1.len() == p + 1 + hex_seq(c1 as nat).len());
        assert(t2.len() == p + 1 + hex_seq(c2 as nat).len());
        assert(hex_seq(c1 as nat).len() == hex_seq(c2 as nat).len());
        assert(hex_seq(c1 as nat) =~= hex_seq(c2 as nat)) by {
            assert forall|i: int| 0 <= i < hex_seq(c1 as nat).len() implies hex_seq(c1 as nat)[i]
                == hex_seq(c2 as nat)[i] by {
                assert(t1[p + 1 + i] == hex_seq(c1 as nat)[i]);
                assert(t2[p + 1 + i] == hex_seq(c2 as nat)[i]);
            }
        }
        lemma_hex_seq_injective(c1 as nat, c2 as nat);
        assert(false);
    }
}

/// Render a fresh token from a timestamp and a counter value.
pub fn gen_token(now_ms: u64, counter: u64) -> (r: String)
    ensures
        r@ == token_text(now_ms, counter),
{
    let mut v = hex_chars(now_ms);
    v.push('-');
    let mut c = hex_chars(counter);
    v.append(&mut c);
    proof {
        assert(v@ =~= token_text(now_ms, counter));
    }
    string_from_chars(&v)
}

/// Relies on std's `SystemTime::now`: the wall clock's milliseconds since
/// the Unix epoch. Nothing is promised of the reading; every store
/// operation takes it as an argument and states what holds for any value.
#[verifier::external_body]
pub fn now_instant() -> u64 {
    std::time::SystemTime::now().duration_since(std::time::UNIX_EPOCH).unwrap_or_default()
        .as_millis() as u64
}

fn find_min_index(entries: &Vec<StoreEntry>) -> (r: usize)
    requires
        entries@.len() >= 1,
    ensures
        r as int == min_idx(entries@),
{
    let mut best: usize = 0;
    let mut i: usize = 1;
    while i < entries.len()
        invariant
            1 <= i <= entries@.len(),
            0 <= best < i,
            best as int == min_idx(entries@.subrange(0, i as int)),
        decreases entries@.len() - i,
    {
        let ghost pre = entries@.subrange(0, i as int);
        proof {
            lemma_min_idx_min(pre);
            assert(entries@.subrange(0, i + 1).drop_last() =~= pre);
            assert(entries@.subrange(0, i + 1).last() == entries@[i as int]);
            assert(pre[best as int] == entries@[best as int]);
        }
        if entries[i].last_access < entries[best].last_access {
            best = i;
        }
        i = i + 1;
    }
    proof {
        assert(entries@.subrange(0, entries@.len() as int) =~= entries@);
    }
    best
}

impl TokenStore {
    /// A fresh store with the default capacity bound.
    pub fn new() -> (s: TokenStore)
        ensures
            s.entries@.len() == 0,
            s.max_entries == MAX_ENTRIES,
            s.counter == 1,
    {
        TokenStore { max_entries: MAX_ENTRIES, counter: 1, entries: Vec::new() }
    }

    /// A fresh store with its own capacity bound, so independent instances
    /// can exist side by side.
    pub fn with_limit(max_entries: usize) -> (s: TokenStore)
        ensures
            s.entries@.len() == 0,
            s.max_entries == max_entries,
            s.counter == 1,
    {
        TokenStore { max_entries, counter: 1, entries: Vec::new() }
    }

    /// Drop every entry whose deadline has passed, then evict the oldest
    /// by last access, earliest position first among ties, until the
    /// capacity bound holds again.
    pub fn cleanup_expired_and_evict(&mut self, now_ms: u64)
        ensures
            final(self).entries@ == evict_spec(
                sweep_spec(old(self).entries@, now_ms),
                old(self).max_entries as nat,
            ),
            final(self).max_entries == old(self).max_entries,
            final(self).counter == old(self).counter,
    {
        let ghost s0 = self.entries@;
        let ghost m0 = self.max_entries;
        let ghost c0 = self.counter;
        let mut kept: Vec<StoreEntry> = Vec::new();
        while self.entries.len() > 0
            invariant
                self.entries@.len() <= s0.len(),
                self.entries@ == s0.subrange(
                    s0.len() - self.entries@.len(),
                    s0.len() as int,
                ),
                kept@ == sweep_spec(s0.subrange(0, s0.len() - self.entries@.len()), now_ms),
                self.max_entries == m0,
                self.counter == c0,
            decreases self.entries@.len(),
        {
            let ghost p = s0.len() - self.entries@.len();
            let e = self.entries.remove(0);
            proof {
                assert(e == s0[p]);
                assert(self.entries@ =~= s0.subrange(p + 1, s0.len() as int));
                assert(s0.subrange(0, p + 1).drop_last() =~= s0.subrange(0, p));
                assert(s0.subrange(0, p + 1).last() == s0[p]);
            }
            if e.deadline >= now_ms {
                kept.push(e);
            }
            proof {
                assert(kept@ =~= sweep_spec(s0.subrange(0, p + 1), now_ms));
            }
        }
        proof {
            assert(s0.subrange(0, s0.len() as int) =~= s0);
        }
        self.entries = kept;
        let ghost swept = self.entries@;
        while self.entries.len() > self.max_entries
            invariant
                evict_spec(self.entries@, m0 as nat) == evict_spec(swept, m0 as nat),
                self.max_entries == m0,
                self.counter == c0,
            decreases self.entries@.len(),
        {
            let m = find_min_index(&self.entries);
            proof {
                lemma_min_idx_min(self.entries@);
            }
            self.entries.remove(m);
        }
    }

    /// Park a table under a fresh token. The expired are swept first; the
    /// new entry's deadline is `now + ttl` and the bound is restored by
    /// evicting the oldest entries, so a newly issued token on a sane
    /// clock is immediately addressable.
    pub fn issue(&mut self, value: ParsedTable, ttl_ms: u64, now_ms: u64) -> (token: String)
        requires
            now_ms + ttl_ms <= u64::MAX,
        ensures
            final(self).max_entries == old(self).max_entries,
            final(self).counter == counter_next(old(self).counter),
            token@ == token_text(now_ms, old(self).counter),
            exists|e: StoreEntry|
                #![trigger e.token]
                e.token@ == token_text(now_ms, old(self).counter) && e.deadline == now_ms + ttl_ms
                    && e.last_access == now_ms && e.value == value && final(self).entries@
                    == evict_spec(
                    evict_spec(
                        sweep_spec(old(self).entries@, now_ms),
                        old(self).max_entries as nat,
                    ).push(e),
                    old(self).max_entries as nat,
                ),
            (old(self).max_entries >= 1 && all_access_le(old(self).entries@, now_ms)) ==> (
            lookup_spec(final(self).entries@, token_text(now_ms, old(self).counter)) matches Some(
                e,
            ) && e.value == value && e.deadline == now_ms + ttl_ms && e.last_access == now_ms),
    {
        let ghost s0 = self.entries@;
        let ghost m0 = self.max_entries;
        let ghost c_issue = self.counter;
        self.cleanup_expired_and_evict(now_ms);
        let ghost pre = self.entries@;
        let token = gen_token(now_ms, self.counter);
        let tok_copy = gen_token(now_ms, self.counter);
        if self.counter == u64::MAX {
            self.counter = 0;
        } else {
            self.counter = self.counter + 1;
        }
        let e = StoreEntry {
            token: tok_copy,
            deadline: now_ms + ttl_ms,
            last_access: now_ms,
            value,
        };
        let ghost ge = e;
        self.entries.push(e);
        let ghost pushed = self.entries@;
        proof {
            assert(pushed == pre.push(ge));
        }
        while self.entries.len() > self.max_entries
            invariant
                evict_spec(self.entries@, m0 as nat) == evict_spec(pushed, m0 as nat),
                self.max_entries == m0,
                self.counter == counter_next(c_issue),
            decreases self.entries@.len(),
        {
            let m = find_min_index(&self.entries);
            proof {
                lemma_min_idx_min(self.entries@);
            }
            self.entries.remove(m);
        }
        proof {
            assert(self.entries@ == evict_spec(pre.push(ge), m0 as nat));
            assert(ge.token@ == token_text(now_ms, c_issue));
            assert(ge.deadline == now_ms + ttl_ms && ge.last_access == now_ms);
            assert(exists|e: StoreEntry|
                #![trigger e.token]
                e.token@ == token_text(now_ms, c_issue) && e.deadline == now_ms + ttl_ms
                    && e.last_access == now_ms && e.value == value && self.entries@ == evict_spec(
                    evict_spec(sweep_spec(s0, now_ms), m0 as nat).push(e),
                    m0 as nat,
                ));
            if m0 >= 1 && all_access_le(s0, now_ms) {
                lemma_sweep_access(s0, now_ms, now_ms);
                lemma_evict_access(sweep_spec(s0, now_ms), m0 as nat, now_ms);
                lemma_evict_len(sweep_spec(s0, now_ms), m0 as nat);
                assert(pre.len() <= m0);
                let s2 = pre.push(ge);
                assert(forall|k: int|
                    0 <= k < s2.len() - 1 ==> (#[trigger] s2[k]).last_access
                        <= s2.last().last_access);
                lemma_evict_keeps_last(s2, m0 as nat);
                assert(lookup_spec(self.entries@, token_text(now_ms, c_issue)) == Some(ge));
            }
        }
        token
    }

    /// Consume a token: destructive and single-use. The entry, if any, is
    /// removed with the lookup; its expiry is checked at this moment; the
    /// expired among the rest are swept away.
    pub fn consume(&mut self, token: &str, now_ms: u64) -> (r: Result<ParsedTable, StoreError>)
        ensures
            final(self).max_entries == old(self).max_entries,
            final(self).counter == old(self).counter,
            final(self).entries@ == evict_spec(
                sweep_spec(remove_last_match(old(self).entries@, token@), now_ms),
                old(self).max_entries as nat,
            ),
            match lookup_spec(old(self).entries@, token@) {
                None => r == Err::<ParsedTable, StoreError>(StoreError::UnknownToken),
                Some(e) => if now_ms > e.deadline {
                    r == Err::<ParsedTable, StoreError>(StoreError::ExpiredToken)
                } else {
                    r == Ok::<ParsedTable, StoreError>(e.value)
                },
            },
    {
        let ghost s0 = self.entries@;
        let tks = String::from_str(token);
        let mut found: Option<usize> = None;
        let mut i: usize = 0;
        while i < self.entries.len()
            invariant
                0 <= i <= self.entries@.len(),
                self.entries@ == s0,
                match found {
                    None => forall|k: int| 0 <= k < i ==> #[trigger] s0[k].token@ != token@,
                    Some(fi) => 0 <= fi < i && lookup_spec(s0.subrange(0, i as int), token@)
                        == Some(s0[fi as int]) && s0[fi as int].token@ == token@ && (forall|k: int|
                        fi < k < i ==> #[trigger] s0[k].token@ != token@),
                },
                tks@ == token@,
            decreases self.entries@.len() - i,
        {
            proof {
                assert(s0.subrange(0, i + 1).drop_last() =~= s0.subrange(0, i as int));
                assert(s0.subrange(0, i + 1).last() == s0[i as int]);
            }
            if self.entries[i].token == tks {
                found = Some(i);
            }
            i = i + 1;
        }
        proof {
            assert(s0.subrange(0, s0.len() as int) =~= s0);
        }
        match found {
            None => {
                proof {
                    lemma_rlm_no_match_id(s0, token@);
                    lemma_lookup_no_match(s0, token@);
                }
                self.cleanup_expired_and_evict(now_ms);
                Err(StoreError::UnknownToken)
            },
            Some(fi) => {
                let e = self.entries.remove(fi);
                proof {
                    lemma_rlm_at(s0, token@, fi as int);
                }
                self.cleanup_expired_and_evict(now_ms);
                if now_ms > e.deadline {
                    Err(StoreError::ExpiredToken)
                } else {
                    Ok(e.value)
                }
            },
        }
    }
}

/// A sweep never touches an entry's access time.
proof fn lemma_sweep_access(s: Seq<StoreEntry>, now: u64, bound: u64)
    requires
        all_access_le(s, bound),
    ensures
        all_access_le(sweep_spec(s, now), bound),
    decreases s.len(),
{
    if s.len() > 0 {
        assert(forall|k: int| 0 <= k < s.len() - 1 ==> #[trigger] s.drop_last()[k] == s[k]);
        lemma_sweep_access(s.drop_last(), now, bound);
    }
}

/// Eviction never touches an entry's access time.
proof fn lemma_evict_access(s: Seq<StoreEntry>, max: nat, bound: u64)
    requires
        all_access_le(s, bound),
    ensures
        all_access_le(evict_spec(s, max), bound),
    decreases s.len(),
{
    if s.len() > max {
        lemma_min_idx_min(s);
        let m = min_idx(s);
        assert(all_access_le(s.remove(m), bound)) by {
            assert(forall|k: int|
                0 <= k < s.remove(m).len() ==> #[trigger] s.remove(m)[k] == (if k < m {
                    s[k]
                } else {
                    s[k + 1]
                }));
        }
        lemma_evict_access(s.remove(m), max, bound);
    }
}

/// Eviction leaves at most the bound, and an already bounded store alone.
proof fn lemma_evict_len(s: Seq<StoreEntry>, max: nat)
    ensures
        s.len() <= max ==> evict_spec(s, max) == s,
        evict_spec(s, max).len() <= max || s.len() <= max,
    decreases s.len(),
{
    if s.len() > max {
        lemma_min_idx_min(s);
        lemma_evict_len(s.remove(min_idx(s)), max);
    }
}

/// Eviction keeps the newest entry when it is as fresh as the rest.
proof fn lemma_evict_keeps_last(s: Seq<StoreEntry>, max: nat)
    requires
        max >= 1,
        1 <= s.len() <= max + 1,
        forall|k: int|
            0 <= k < s.len() - 1 ==> (#[trigger] s[k]).last_access <= s.last().last_access,
    ensures
        evict_spec(s, max).len() >= 1,
        evict_spec(s, max).last() == s.last(),
{
    if s.len() > max {
        lemma_min_idx_min(s);
        let m = min_idx(s);
        assert(m < s.len() - 1) by {
            if m == s.len() - 1 {
                assert(s[0].last_access > s[m].last_access);
                assert(s[0].last_access <= s.last().last_access);
            }
        }
        let s1 = s.remove(m);
        s.remove_ensures(m);
        assert(s1.len() == s.len() - 1);
        assert(s1[s1.len() - 1] == s[s.len() - 1]);
        assert(evict_spec(s, max) == evict_spec(s1, max));
        assert(evict_spec(s1, max) == s1);
    }
}

proof fn lemma_rlm_no_match_id(s: Seq<StoreEntry>, t: Seq<char>)
    requires
        forall|k: int| 0 <= k < s.len() ==> #[trigger] s[k].token@ != t,
    ensures
        remove_last_match(s, t) == s,
    decreases s.len(),
{
    if s.len() > 0 {
        assert(forall|k: int| 0 <= k < s.len() - 1 ==> #[trigger] s.drop_last()[k] == s[k]);
        lemma_rlm_no_match_id(s.drop_last(), t);
        assert(remove_last_match(s, t) =~= s);
    }
}

proof fn lemma_rlm_at(s: Seq<StoreEntry>, t: Seq<char>, fi: int)
    requires
        0 <= fi < s.len(),
        s[fi].token@ == t,
        forall|k: int| fi < k < s.len() ==> #[trigger] s[k].token@ != t,
    ensures
        remove_last_match(s, t) == s.remove(fi),
    decreases s.len(),
{
    if fi == s.len() - 1 {
        assert(remove_last_match(s, t) == s.drop_last());
        assert(s.drop_last() =~= s.remove(fi));
    } else {
        let d = s.drop_last();
        assert(forall|k: int| 0 <= k < d.len() ==> #[trigger] d[k] == s[k]);
        lemma_rlm_at(d, t, fi);
        assert(remove_last_match(s, t) == d.remove(fi).push(s.last()));
        assert(d.remove(fi).push(s.last()) =~= s.remove(fi));
    }
}

/// The round trip: when an issue has left the store addressing `tok` with
/// the issued table (which `issue` promises of every store within its
/// bound and behind its clock), a consume at any moment up to the deadline
/// returns exactly that table, and the consumed entry is gone for good.
pub proof fn lemma_store_round_trip(
    s: Seq<StoreEntry>,
    tok: Seq<char>,
    value: ParsedTable,
    now2: u64,
    max: nat,
)
    requires
        lookup_spec(s, tok) matches Some(e) && e.value == value && now2 <= e.deadline,
        tokens_distinct(s),
    ensures
        match lookup_spec(s, tok) {
            Some(e) => !(now2 > e.deadline) && e.value == value,
            None => false,
        },
        lookup_spec(evict_spec(sweep_spec(remove_last_match(s, tok), now2), max), tok) is None,
{
    lemma_consume_single_use(s, tok, now2, max);
}

/// After a token is consumed, no sweep or eviction brings it back: a
/// second lookup finds nothing, provided the store's tokens were pairwise
/// distinct. This is the single-use half of the round trip.
pub proof fn lemma_consume_single_use(s: Seq<StoreEntry>, t: Seq<char>, now: u64, max: nat)
    requires
        tokens_distinct(s),
    ensures
        lookup_spec(evict_spec(sweep_spec(remove_last_match(s, t), now), max), t) is None,
{
    lemma_rlm_no_match(s, t);
    lemma_sweep_no_match(remove_last_match(s, t), t, now);
    lemma_evict_no_match(sweep_spec(remove_last_match(s, t), now), t, max);
    lemma_lookup_no_match(evict_spec(sweep_spec(remove_last_match(s, t), now), max), t);
}

proof fn lemma_rlm_no_match(s: Seq<StoreEntry>, t: Seq<char>)
    requires
        tokens_distinct(s),
    ensures
        forall|k: int|
            0 <= k < remove_last_match(s, t).len() ==> #[trigger] remove_last_match(s, t)[
                k
            ].token@ != t,
    decreases s.len(),
{
    if s.len() > 0 {
        let d = s.drop_last();
        assert(forall|k: int| 0 <= k < d.len() ==> #[trigger] d[k] == s[k]);
        if s.last().token@ == t {
            assert(remove_last_match(s, t) == d);
            assert forall|k: int| 0 <= k < remove_last_match(s, t).len() implies #[trigger]
            remove_last_match(s, t)[k].token@ != t by {
                assert(s[k].token@ != s[s.len() - 1].token@);
            }
        } else {
            lemma_rlm_no_match(d, t);
            let r = remove_last_match(s, t);
            assert(r == remove_last_match(d, t).push(s.last()));
            assert forall|k: int| 0 <= k < r.len() implies #[trigger] r[k].token@ != t by {
                if k < r.len() - 1 {
                    assert(r[k] == remove_last_match(d, t)[k]);
                } else {
                    assert(r[k] == s.last());
                }
            }
        }
    }
}

proof fn lemma_sweep_no_match(s: Seq<StoreEntry>, t: Seq<char>, now: u64)
    requires
        forall|k: int| 0 <= k < s.len() ==> #[trigger] s[k].token@ != t,
    ensures
        forall|k: int|
            0 <= k < sweep_spec(s, now).len() ==> #[trigger] sweep_spec(s, now)[k].token@ != t,
    decreases s.len(),
{
    if s.len() > 0 {
        let d = s.drop_last();
        assert(forall|k: int| 0 <= k < s.len() - 1 ==> #[trigger] d[k] == s[k]);
        lemma_sweep_no_match(d, t, now);
        let r = sweep_spec(s, now);
        assert forall|k: int| 0 <= k < r.len() implies #[trigger] r[k].token@ != t by {
            if s.last().deadline >= now {
                assert(r == sweep_spec(d, now).push(s.last()));
                if k < r.len() - 1 {
                    assert(r[k] == sweep_spec(d, now)[k]);
                } else {
                    assert(r[k] == s.last());
                }
            } else {
                assert(r == sweep_spec(d, now));
            }
        }
    }
}

proof fn lemma_evict_no_match(s: Seq<StoreEntry>, t: Seq<char>, max: nat)
    requires
        forall|k: int| 0 <= k < s.len() ==> #[trigger] s[k].token@ != t,
    ensures
        forall|k: int|
            0 <= k < evict_spec(s, max).len() ==> #[trigger] evict_spec(s, max)[k].token@ != t,
    decreases s.len(),
{
    if s.len() > max {
        lemma_min_idx_min(s);
        let m = min_idx(s);
        s.remove_ensures(m);
        assert(forall|k: int|
            0 <= k < s.remove(m).len() ==> #[trigger] s.remove(m)[k].token@ != t);
        lemma_evict_no_match(s.remove(m), t, max);
        assert(evict_spec(s, max) == evict_spec(s.remove(m), max));
    }
}

proof fn lemma_lookup_no_match(s: Seq<StoreEntry>, t: Seq<char>)
    requires
        forall|k: int| 0 <= k < s.len() ==> #[trigger] s[k].token@ != t,
    ensures
        lookup_spec(s, t) is None,
    decreases s.len(),
{
    if s.len() > 0 {
        assert(forall|k: int| 0 <= k < s.len() - 1 ==> #[trigger] s.drop_last()[k] == s[k]);
        lemma_lookup_no_match(s.drop_last(), t);
    }
}

/// When a store one over its bound holds only live entries and its first
/// entry is strictly the oldest by last access, eviction removes exactly
/// that entry: the most recent ones all stay.
pub proof fn lemma_capacity_evicts_oldest(s: Seq<StoreEntry>, max: nat)
    requires
        max >= 1,
        s.len() == max + 1,
        forall|k: int| 1 <= k < s.len() ==> s[0].last_access < (#[trigger] s[k]).last_access,
    ensures
        evict_spec(s, max) == s.drop_first(),
{
    lemma_min_strict_first(s);
    assert(s.remove(0) =~= s.drop_first());
    assert(evict_spec(s, max) == evict_spec(s.remove(0), max));
    assert(evict_spec(s.drop_first(), max) == s.drop_first());
}

proof fn lemma_min_strict_first(s: Seq<StoreEntry>)
    requires
        s.len() >= 1,
        forall|k: int| 1 <= k < s.len() ==> s[0].last_access < (#[trigger] s[k]).last_access,
    ensures
        min_idx(s) == 0,
    decreases s.len(),
{
    if s.len() > 1 {
        let d = s.drop_last();
        assert(forall|k: int| 0 <= k < d.len() ==> #[trigger] d[k] == s[k]);
        lemma_min_strict_first(d);
    }
}

/// Validate a table and park it under a fresh token with the default
/// result time-to-live. An invalid table is refused and nothing is
/// stored.
pub fn issue_result_token(store: &mut TokenStore, result: ParsedTable, now_ms: u64) -> (r: Result<
    String,
    TableError,
>)
    requires
        now_ms + RESULT_TOKEN_TTL_MS <= u64::MAX,
    ensures
        match r {
            Ok(token) => table_valid(result) && final(store).counter == counter_next(
                old(store).counter,
            ) && final(store).max_entries == old(store).max_entries && token@ == token_text(
                now_ms,
                old(store).counter,
            ) && ((old(store).max_entries >= 1 && all_access_le(old(store).entries@, now_ms))
                ==> (lookup_spec(final(store).entries@, token@) matches Some(e) && e.value
                == result && e.deadline == now_ms + RESULT_TOKEN_TTL_MS)),
            Err(_) => !table_valid(result) && *final(store) == *old(store),
        },
{
    match result.validate() {
        Ok(()) => {
            let token = store.issue(result, RESULT_TOKEN_TTL_MS, now_ms);
            Ok(token)
        },
        Err(e) => Err(e),
    }
}

/// Consume a result token and validate what it addressed before handing
/// it back.
pub fn consume_result_token(store: &mut TokenStore, token: &str, now_ms: u64) -> (r: Result<
    ParsedTable,
    StoreError,
>)
    ensures
        final(store).max_entries == old(store).max_entries,
        final(store).counter == old(store).counter,
        final(store).entries@ == evict_spec(
            sweep_spec(remove_last_match(old(store).entries@, token@), now_ms),
            old(store).max_entries as nat,
        ),
        match lookup_spec(old(store).entries@, token@) {
            None => r == Err::<ParsedTable, StoreError>(StoreError::UnknownToken),
            Some(e) => if now_ms > e.deadline {
                r == Err::<ParsedTable, StoreError>(StoreError::ExpiredToken)
            } else if table_valid(e.value) {
                r == Ok::<ParsedTable, StoreError>(e.value)
            } else {
                r matches Err(StoreError::InvalidPayload { .. })
            },
        },
{
    match store.consume(token, now_ms) {
        Ok(t) => match t.validate() {
            Ok(()) => Ok(t),
            Err(e) => Err(StoreError::InvalidPayload { detail: e }),
        },
        Err(e) => Err(e),
    }
}

} // verus!
