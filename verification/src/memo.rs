//! The memo store: short free-text notes with scheduling and status metadata.

use vstd::pervasive::VecAdditionalExecFns;
use vstd::prelude::*;
use vstd::relations::sorted_by;
use vstd::relations::strongly_connected;
use vstd::relations::transitive;

use crate::StoreError;
use crate::order::lemma_ordered_insert_is_insert_at;
use crate::order::lemma_sort_ordered_permutes;
use crate::order::lemma_sort_ordered_sorted;
use crate::order::sort_ordered;

verus! {

/// A memo row, fully populated.
#[derive(Debug)]
pub struct Memo {
    pub id: i64,
    pub uid: String,
    pub created_ts: i64,
    pub updated_ts: i64,
    pub category: String,
    pub target_date: Option<String>,
    pub completion_status: String,
    pub content: String,
    pub pinned: bool,
    pub archived: bool,
}

impl Clone for Memo {
    fn clone(&self) -> (r: Self)
        ensures
            r == *self,
    {
        Memo {
            id: self.id,
            uid: self.uid.clone(),
            created_ts: self.created_ts,
            updated_ts: self.updated_ts,
            category: self.category.clone(),
            target_date: match &self.target_date {
                Some(d) => Some(d.clone()),
                None => None,
            },
            completion_status: self.completion_status.clone(),
            content: self.content.clone(),
            pinned: self.pinned,
            archived: self.archived,
        }
    }
}

/// What a caller supplies to create a memo.
pub struct CreateMemoParams {
    pub content: String,
    pub category: Option<String>,
    pub target_date: Option<String>,
}

/// What a caller supplies to update a memo; an absent field keeps its stored
/// value.
pub struct UpdateMemoParams {
    pub content: Option<String>,
    pub category: Option<String>,
    pub target_date: Option<String>,
    pub completion_status: Option<String>,
    pub pinned: Option<bool>,
    pub archived: Option<bool>,
}

/// The characters of an optional string.
pub open spec fn opt_view(o: Option<String>) -> Option<Seq<char>> {
    match o {
        Some(s) => Some(s@),
        None => None,
    }
}

/// Recency order: newer memos first; ties broken towards the higher (younger)
/// row id.
pub open spec fn memo_recency_leq(a: Memo, b: Memo) -> bool {
    if a.created_ts != b.created_ts {
        a.created_ts > b.created_ts
    } else {
        a.id >= b.id
    }
}

/// Listing order: pinned memos before unpinned ones, then by recency.
pub open spec fn memo_listing_leq(a: Memo, b: Memo) -> bool {
    if a.pinned != b.pinned {
        a.pinned
    } else {
        memo_recency_leq(a, b)
    }
}

pub open spec fn listing_order() -> spec_fn(Memo, Memo) -> bool {
    |a: Memo, b: Memo| memo_listing_leq(a, b)
}

pub open spec fn recency_order() -> spec_fn(Memo, Memo) -> bool {
    |a: Memo, b: Memo| memo_recency_leq(a, b)
}

/// Both memo orders admit every pair and are transitive, so sorting under
/// them yields a sorted permutation.
pub proof fn lemma_memo_orders_total()
    ensures
        transitive(listing_order()),
        strongly_connected(listing_order()),
        transitive(recency_order()),
        strongly_connected(recency_order()),
{
}

/// The view of an optional borrowed category filter.
pub open spec fn cat_view(c: Option<&str>) -> Option<Seq<char>> {
    match c {
        Some(s) => Some(s@),
        None => None,
    }
}

/// The memos a listing considers: not archived, and of the requested
/// category when one is requested.
pub open spec fn listed_pred(cat: Option<Seq<char>>) -> spec_fn(Memo) -> bool {
    |m: Memo|
        !m.archived && match cat {
            Some(c) => m.category@ == c,
            None => true,
        }
}

/// The memos a search considers: not archived, with the wildcard-wrapped
/// query matching the content.
pub open spec fn search_pred(q: Seq<char>) -> spec_fn(Memo) -> bool {
    |m: Memo| !m.archived && crate::pattern::like_match(crate::pattern::wrapped(q), m.content@)
}

/// An empty search query admits every memo that is not archived.
pub proof fn lemma_empty_search_admits_unarchived(m: Memo)
    ensures
        search_pred(Seq::<char>::empty())(m) == !m.archived,
{
    crate::pattern::lemma_empty_query_matches_all(m.content@);
}

/// An empty search query selects exactly the memos that are not archived.
pub proof fn lemma_empty_search_selects_unarchived(s: Seq<Memo>)
    ensures
        s.filter(search_pred(Seq::<char>::empty())) == s.filter(|m: Memo| !m.archived),
{
    assert forall|m: Memo| #[trigger] search_pred(Seq::<char>::empty())(m) == !m.archived by {
        lemma_empty_search_admits_unarchived(m);
    }
    assert(search_pred(Seq::<char>::empty()) =~= (|m: Memo| !m.archived));
}

/// Listings come out sorted under the listing order and are a permutation
/// of the rows they select; search results likewise under the recency order.
pub proof fn lemma_memo_sort_orders(s: Seq<Memo>)
    ensures
        sorted_by(sort_ordered(s, listing_order()), listing_order()),
        sort_ordered(s, listing_order()).to_multiset() == s.to_multiset(),
        sorted_by(sort_ordered(s, recency_order()), recency_order()),
        sort_ordered(s, recency_order()).to_multiset() == s.to_multiset(),
{
    lemma_memo_orders_total();
    lemma_sort_ordered_sorted(s, listing_order());
    lemma_sort_ordered_permutes(s, listing_order());
    lemma_sort_ordered_sorted(s, recency_order());
    lemma_sort_ordered_permutes(s, recency_order());
}

/// In a well-formed store the uids of the stored memos are pairwise
/// distinct, however many creations produced them.
pub proof fn lemma_uids_pairwise_distinct(s: MemoStore)
    requires
        s.wf(),
    ensures
        forall|i: int, j: int| 0 <= i < j < s@.len() ==> s@[i].uid@ != s@[j].uid@,
{
}

/// A fully populated memo as `create` stores it: the supplied content and
/// target date, the category defaulted to "daily", a pending status, both
/// timestamps equal to the creation instant, and neither pinned nor archived.
pub open spec fn fresh_memo(
    m: Memo,
    params: CreateMemoParams,
    uid: String,
    now: i64,
    id: int,
) -> bool {
    &&& m.id == id
    &&& m.uid@ == uid@
    &&& m.created_ts == now
    &&& m.updated_ts == now
    &&& m.category@ == match params.category {
        Some(c) => c@,
        None => "daily"@,
    }
    &&& opt_view(m.target_date) == opt_view(params.target_date)
    &&& m.completion_status@ == "pending"@
    &&& m.content@ == params.content@
    &&& m.pinned == false
    &&& m.archived == false
}

/// A created memo as seen by a caller who supplied `params`: everything of
/// `fresh_memo` except the generated uid and the creation instant, of which
/// only `created_ts == updated_ts` is visible.
pub open spec fn created_memo(m: Memo, params: CreateMemoParams, id: int) -> bool {
    &&& m.id == id
    &&& m.created_ts == m.updated_ts
    &&& m.category@ == match params.category {
        Some(c) => c@,
        None => "daily"@,
    }
    &&& opt_view(m.target_date) == opt_view(params.target_date)
    &&& m.completion_status@ == "pending"@
    &&& m.content@ == params.content@
    &&& m.pinned == false
    &&& m.archived == false
}

/// The row produced by a partial update of `m`: each supplied field replaces
/// the stored one, each absent field keeps it; id, uid and creation instant
/// never change, and `updated_ts` becomes the update instant.
pub open spec fn merged_memo(m: Memo, p: UpdateMemoParams, now: i64, r: Memo) -> bool {
    &&& r.id == m.id
    &&& r.uid@ == m.uid@
    &&& r.created_ts == m.created_ts
    &&& r.updated_ts == now
    &&& r.content@ == match p.content {
        Some(c) => c@,
        None => m.content@,
    }
    &&& r.category@ == match p.category {
        Some(c) => c@,
        None => m.category@,
    }
    &&& opt_view(r.target_date) == match p.target_date {
        Some(d) => Some(d@),
        None => opt_view(m.target_date),
    }
    &&& r.completion_status@ == match p.completion_status {
        Some(s) => s@,
        None => m.completion_status@,
    }
    &&& r.pinned == match p.pinned {
        Some(b) => b,
        None => m.pinned,
    }
    &&& r.archived == match p.archived {
        Some(b) => b,
        None => m.archived,
    }
}

/// A partial update supplying only `content` keeps every other
/// caller-visible field, and does not move `updated_ts` backwards whenever
/// the update instant is at least the stored one.
pub proof fn lemma_update_content_only(m: Memo, p: UpdateMemoParams, now: i64, r: Memo)
    requires
        merged_memo(m, p, now, r),
        p.category is None,
        p.target_date is None,
        p.completion_status is None,
        p.pinned is None,
        p.archived is None,
    ensures
        r.category@ == m.category@,
        opt_view(r.target_date) == opt_view(m.target_date),
        r.completion_status@ == m.completion_status@,
        r.pinned == m.pinned,
        r.archived == m.archived,
        r.content@ == match p.content {
            Some(c) => c@,
            None => m.content@,
        },
        now >= m.updated_ts ==> r.updated_ts >= m.updated_ts,
{
}

/// The successor of a completion status in the fixed cycle
/// pending, completed, incomplete; an unrecognized stored value counts as
/// pending before advancing.
pub open spec fn advanced_status(s: Seq<char>) -> Seq<char> {
    if s == "pending"@ {
        "completed"@
    } else if s == "completed"@ {
        "incomplete"@
    } else if s == "incomplete"@ {
        "pending"@
    } else {
        "completed"@
    }
}

/// Advancing a pending status three times returns it to pending.
pub proof fn lemma_status_cycle()
    ensures
        advanced_status(advanced_status(advanced_status("pending"@))) == "pending"@,
{
    reveal_strlit("pending");
    reveal_strlit("completed");
    reveal_strlit("incomplete");
}

/// The row produced by a status toggle of `m` at instant `now`.
pub open spec fn toggled_memo(m: Memo, now: i64, r: Memo) -> bool {
    &&& r.id == m.id
    &&& r.uid@ == m.uid@
    &&& r.created_ts == m.created_ts
    &&& r.updated_ts == now
    &&& r.category@ == m.category@
    &&& opt_view(r.target_date) == opt_view(m.target_date)
    &&& r.completion_status@ == advanced_status(m.completion_status@)
    &&& r.content@ == m.content@
    &&& r.pinned == m.pinned
    &&& r.archived == m.archived
}

/// Whether a memo belongs to a date's listing: not archived, and either its
/// target date is that date, or it has none to speak for it and `day` — the
/// memo's creation day in the host's local time zone — is that date.
pub open spec fn on_date(m: Memo, day: Seq<char>, date: Seq<char>) -> bool {
    &&& !m.archived
    &&& ((match m.target_date {
        Some(t) => t@ == date,
        None => false,
    }) || day == date)
}

/// The memos of `rows` that belong to `date`, in storage order, given the
/// creation day of each row.
pub open spec fn date_matches(rows: Seq<Memo>, days: Seq<Seq<char>>, date: Seq<char>) -> Seq<Memo>
    recommends
        days.len() == rows.len(),
    decreases rows.len(),
{
    if rows.len() == 0 {
        Seq::empty()
    } else {
        let rest = date_matches(rows.drop_last(), days.drop_last(), date);
        if on_date(rows.last(), days[rows.len() - 1], date) {
            rest.push(rows.last())
        } else {
            rest
        }
    }
}

/// The creation days viewed as character sequences.
pub open spec fn days_view(days: Seq<String>) -> Seq<Seq<char>> {
    days.map_values(|d: String| d@)
}

/// Whatever the creation days are, a date listing selects no archived memo,
/// and selects every unarchived memo whose target date is the date.
pub proof fn lemma_date_matches_bounds(rows: Seq<Memo>, days: Seq<Seq<char>>, date: Seq<char>)
    requires
        days.len() == rows.len(),
    ensures
        forall|k: int|
            0 <= k < date_matches(rows, days, date).len() ==> !(#[trigger] date_matches(
                rows,
                days,
                date,
            )[k]).archived,
        forall|i: int|
            0 <= i < rows.len() && on_date(rows[i], days[i], date) ==> date_matches(
                rows,
                days,
                date,
            ).contains(rows[i]),
    decreases rows.len(),
{
    if rows.len() == 0 {
    } else {
        lemma_date_matches_bounds(rows.drop_last(), days.drop_last(), date);
        let prev = date_matches(rows.drop_last(), days.drop_last(), date);
        let cur = date_matches(rows, days, date);
        assert(forall|i: int| 0 <= i < rows.len() - 1 ==> rows.drop_last()[i] == rows[i]);
        assert(forall|i: int| 0 <= i < days.len() - 1 ==> days.drop_last()[i] == days[i]);
        assert forall|i: int|
            0 <= i < rows.len() && on_date(rows[i], days[i], date) implies cur.contains(
            rows[i],
        ) by {
            if i < rows.len() - 1 {
                assert(prev.contains(rows[i]));
                let k = choose|k: int| 0 <= k < prev.len() && prev[k] == rows[i];
                assert(cur[k] == rows[i]);
            } else {
                assert(cur[cur.len() - 1] == rows[i]);
            }
        }
    }
}

/// The in-memory memo table, with the next row id the storage will assign.
pub struct MemoStore {
    rows: Vec<Memo>,
    next_id: i64,
}

impl View for MemoStore {
    type V = Seq<Memo>;

    closed spec fn view(&self) -> Seq<Memo> {
        self.rows@
    }
}

impl MemoStore {
    /// Row ids are unique and below the next id to be assigned, uids are
    /// pairwise distinct, and no row was last updated before it was created.
    pub closed spec fn wf(self) -> bool {
        &&& 1 <= self.next_id
        &&& forall|i: int| 0 <= i < self@.len() ==> 1 <= (#[trigger] self@[i]).id < self.next_id
        &&& forall|i: int, j: int|
            0 <= i < j < self@.len() ==> self@[i].id != self@[j].id
        &&& forall|i: int, j: int|
            0 <= i < j < self@.len() ==> self@[i].uid@ != self@[j].uid@
        &&& forall|i: int|
            0 <= i < self@.len() ==> (#[trigger] self@[i]).created_ts <= self@[i].updated_ts
    }

    /// The next row id the store will assign.
    pub closed spec fn spec_next_id(self) -> int {
        self.next_id as int
    }

    pub fn new() -> (r: Self)
        ensures
            r.wf(),
            r@ =~= Seq::<Memo>::empty(),
            r.spec_next_id() == 1,
    {
        MemoStore { rows: Vec::new(), next_id: 1 }
    }

    fn contains_uid(&self, uid: &String) -> (r: bool)
        ensures
            r == exists|i: int| 0 <= i < self@.len() && (#[trigger] self@[i]).uid@ == uid@,
    {
        let mut i: usize = 0;
        while i < self.rows.len()
            invariant
                i <= self.rows.len(),
                forall|k: int| 0 <= k < i ==> (#[trigger] self@[k]).uid@ != uid@,
            decreases self.rows.len() - i,
        {
            if self.rows[i].uid.eq(uid) {
                return true;
            }
            i += 1;
        }
        false
    }

    fn find_index(&self, id: i64) -> (r: Option<usize>)
        ensures
            match r {
                Some(i) => i < self@.len() && self@[i as int].id == id,
                None => forall|i: int| 0 <= i < self@.len() ==> (#[trigger] self@[i]).id != id,
            },
    {
        let mut i: usize = 0;
        while i < self.rows.len()
            invariant
                i <= self.rows.len(),
                forall|k: int| 0 <= k < i ==> (#[trigger] self@[k]).id != id,
            decreases self.rows.len() - i,
        {
            if self.rows[i].id == id {
                return Some(i);
            }
            i += 1;
        }
        None
    }

    /// Insert a new memo built from `params`, under the given uid, at the
    /// given creation instant.  Fails exactly when the uid collides with a
    /// stored one (the unique-uid constraint) or the id space is exhausted.
    pub fn create_memo_at(&mut self, params: CreateMemoParams, uid: String, now: i64) -> (r: Result<
        Memo,
        StoreError,
    >)
        requires
            old(self).wf(),
        ensures
            final(self).wf(),
            match r {
                Ok(m) => {
                    &&& forall|i: int|
                        0 <= i < old(self)@.len() ==> (#[trigger] old(self)@[i]).uid@ != uid@
                    &&& old(self).spec_next_id() < i64::MAX
                    &&& fresh_memo(m, params, uid, now, old(self).spec_next_id())
                    &&& final(self)@ == old(self)@.push(m)
                    &&& final(self).spec_next_id() == old(self).spec_next_id() + 1
                },
                Err(e) => {
                    &&& e == StoreError::PersistenceError
                    &&& final(self)@ == old(self)@
                    &&& final(self).spec_next_id() == old(self).spec_next_id()
                    &&& (exists|i: int|
                        0 <= i < old(self)@.len() && (#[trigger] old(self)@[i]).uid@ == uid@) || old(
                        self,
                    ).spec_next_id() == i64::MAX
                },
            },
    {
        if self.contains_uid(&uid) {
            return Err(StoreError::PersistenceError);
        }
        if self.next_id == i64::MAX {
            return Err(StoreError::PersistenceError);
        }
        let id = self.next_id;
        let m = Memo {
            id,
            uid,
            created_ts: now,
            updated_ts: now,
            category: match params.category {
                Some(c) => c,
                None => "daily".to_owned(),
            },
            target_date: params.target_date,
            completion_status: "pending".to_owned(),
            content: params.content,
            pinned: false,
            archived: false,
        };
        let ret = m.clone();
        self.rows.push(m);
        self.next_id = id + 1;
        Ok(ret)
    }

    /// Re-insert a fully populated row read back from persistent storage,
    /// keeping the next id above every restored one.  Fails exactly when the
    /// row id is out of the assignable range or collides, the uid collides,
    /// or the row claims an update earlier than its creation (corrupt data).
    pub fn restore_memo(&mut self, m: Memo) -> (r: Result<(), StoreError>)
        requires
            old(self).wf(),
        ensures
            final(self).wf(),
            match r {
                Ok(()) => {
                    &&& 1 <= m.id < i64::MAX
                    &&& m.created_ts <= m.updated_ts
                    &&& forall|i: int|
                        0 <= i < old(self)@.len() ==> (#[trigger] old(self)@[i]).id != m.id
                    &&& forall|i: int|
                        0 <= i < old(self)@.len() ==> (#[trigger] old(self)@[i]).uid@ != m.uid@
                    &&& final(self)@ == old(self)@.push(m)
                    &&& final(self).spec_next_id() == if m.id + 1 > old(self).spec_next_id() {
                        m.id + 1
                    } else {
                        old(self).spec_next_id()
                    }
                },
                Err(e) => {
                    &&& e == StoreError::PersistenceError
                    &&& final(self)@ == old(self)@
                    &&& final(self).spec_next_id() == old(self).spec_next_id()
                    &&& (m.id < 1 || m.id == i64::MAX || m.updated_ts < m.created_ts || (exists|i: int|
                        0 <= i < old(self)@.len() && ((#[trigger] old(self)@[i]).id == m.id || old(
                            self,
                        )@[i].uid@ == m.uid@)))
                },
            },
    {
        if m.id < 1 || m.id == i64::MAX {
            return Err(StoreError::PersistenceError);
        }
        if m.updated_ts < m.created_ts {
            return Err(StoreError::PersistenceError);
        }
        if self.find_index(m.id).is_some() {
            return Err(StoreError::PersistenceError);
        }
        if self.contains_uid(&m.uid) {
            return Err(StoreError::PersistenceError);
        }
        if m.id >= self.next_id {
            self.next_id = m.id + 1;
        }
        self.rows.push(m);
        Ok(())
    }

    /// The memo with the given row id; `NotFound` exactly when no row has it.
    pub fn get_memo_by_id(&self, id: i64) -> (r: Result<Memo, StoreError>)
        ensures
            match r {
                Ok(m) => m.id == id && exists|i: int|
                    0 <= i < self@.len() && #[trigger] self@[i] == m,
                Err(e) => e == StoreError::NotFound && forall|i: int|
                    0 <= i < self@.len() ==> (#[trigger] self@[i]).id != id,
            },
    {
        match self.find_index(id) {
            Some(i) => Ok(self.rows[i].clone()),
            None => Err(StoreError::NotFound),
        }
    }

    /// Non-archived memos, optionally restricted to one category, pinned
    /// ones first and then newest first, windowed by `limit` (default 50)
    /// and `offset` (default 0).
    pub fn get_memos(
        &self,
        limit: Option<i64>,
        offset: Option<i64>,
        category: Option<&str>,
    ) -> (r: Result<Vec<Memo>, StoreError>)
        ensures
            match r {
                Ok(v) => v@ == crate::order::page(
                    sort_ordered(self@.filter(listed_pred(cat_view(category))), listing_order()),
                    match limit {
                        Some(l) => l as int,
                        None => 50,
                    },
                    match offset {
                        Some(o) => o as int,
                        None => 0,
                    },
                ),
                Err(_) => false,
            },
    {
        let lim: i64 = match limit {
            Some(l) => l,
            None => 50,
        };
        let off: i64 = match offset {
            Some(o) => o,
            None => 0,
        };
        let cat_owned: Option<String> = match category {
            Some(c) => Some(c.to_owned()),
            None => None,
        };
        let ghost pred = listed_pred(cat_view(category));
        let mut kept: Vec<Memo> = Vec::new();
        let mut i: usize = 0;
        while i < self.rows.len()
            invariant
                i <= self@.len(),
                pred == listed_pred(cat_view(category)),
                kept@ == self@.take(i as int).filter(pred),
                match cat_owned {
                    Some(c) => cat_view(category) == Some(c@),
                    None => cat_view(category) is None,
                },
            decreases self@.len() - i,
        {
            let row = &self.rows[i];
            let keep = if row.archived {
                false
            } else {
                match &cat_owned {
                    Some(c) => row.category.eq(c),
                    None => true,
                }
            };
            proof {
                crate::order::lemma_filter_take_step(self@, pred, i as int);
            }
            if keep {
                kept.push(row.clone());
            }
            i += 1;
        }
        proof {
            assert(self@.take(self@.len() as int) =~= self@);
        }
        let sorted = sort_memos(kept, true);
        Ok(page_memos(&sorted, lim, off))
    }

    /// Non-archived memos whose content the wildcard-wrapped query matches,
    /// newest first, capped at 50 results.  An empty query matches every
    /// content.
    pub fn search_memos(&self, query: &str) -> (r: Result<Vec<Memo>, StoreError>)
        ensures
            match r {
                Ok(v) => v@ == crate::order::page(
                    sort_ordered(self@.filter(search_pred(query@)), recency_order()),
                    50,
                    0,
                ),
                Err(_) => false,
            },
    {
        let pat = crate::pattern::build_wrapped(query);
        let ghost pred = search_pred(query@);
        let mut kept: Vec<Memo> = Vec::new();
        let mut i: usize = 0;
        while i < self.rows.len()
            invariant
                i <= self@.len(),
                pat@ == crate::pattern::wrapped(query@),
                pred == search_pred(query@),
                kept@ == self@.take(i as int).filter(pred),
            decreases self@.len() - i,
        {
            let row = &self.rows[i];
            let keep = if row.archived {
                false
            } else {
                let text = crate::pattern::chars_vec(row.content.as_str());
                crate::pattern::like_matches(&pat, &text)
            };
            proof {
                crate::order::lemma_filter_take_step(self@, pred, i as int);
            }
            if keep {
                kept.push(row.clone());
            }
            i += 1;
        }
        proof {
            assert(self@.take(self@.len() as int) =~= self@);
        }
        let sorted = sort_memos(kept, false);
        Ok(page_memos(&sorted, 50, 0))
    }

    /// Create a memo with a freshly generated uid at the current instant.
    /// Fails only when the id space is exhausted or the drawn uid collides
    /// with a stored one.
    pub fn create_memo(&mut self, params: CreateMemoParams) -> (r: Result<Memo, StoreError>)
        requires
            old(self).wf(),
        ensures
            final(self).wf(),
            match r {
                Ok(m) => {
                    &&& created_memo(m, params, old(self).spec_next_id())
                    &&& forall|i: int|
                        0 <= i < old(self)@.len() ==> (#[trigger] old(self)@[i]).uid@ != m.uid@
                    &&& final(self)@ == old(self)@.push(m)
                    &&& final(self).spec_next_id() == old(self).spec_next_id() + 1
                },
                Err(e) => {
                    &&& e == StoreError::PersistenceError
                    &&& final(self)@ == old(self)@
                    &&& final(self).spec_next_id() == old(self).spec_next_id()
                    &&& (old(self).spec_next_id() == i64::MAX || exists|i: int|
                        0 <= i < old(self)@.len() && (#[trigger] old(self)@[i]).uid@.len() == 36)
                },
            },
    {
        let uid = crate::host::fresh_uid();
        let now = crate::host::now_ts();
        let r = self.create_memo_at(params, uid, now);
        proof {
            if r is Err && old(self).spec_next_id() != i64::MAX {
                // the only other failure is a uid collision, and the drawn
                // uid is 36 characters long
                let i = choose|i: int|
                    0 <= i < old(self)@.len() && (#[trigger] old(self)@[i]).uid@ == uid@;
                assert(old(self)@[i].uid@.len() == 36);
            }
        }
        r
    }

    /// Merge the supplied fields into the stored row with the given id at the
    /// given instant, which must not precede the row's last change (the data
    /// model keeps timestamps forward-moving).  `NotFound` exactly when no
    /// row has that id.
    pub fn update_memo_at(&mut self, id: i64, params: UpdateMemoParams, now: i64) -> (r: Result<
        Memo,
        StoreError,
    >)
        requires
            old(self).wf(),
            forall|i: int|
                0 <= i < old(self)@.len() && (#[trigger] old(self)@[i]).id == id ==> now >= old(
                    self,
                )@[i].updated_ts,
        ensures
            final(self).wf(),
            final(self).spec_next_id() == old(self).spec_next_id(),
            match r {
                Ok(m) => exists|i: int|
                    0 <= i < old(self)@.len() && (#[trigger] old(self)@[i]).id == id && merged_memo(
                        old(self)@[i],
                        params,
                        now,
                        m,
                    ) && m.updated_ts >= old(self)@[i].updated_ts && m.updated_ts >= m.created_ts
                        && final(self)@ == old(self)@.update(i, m),
                Err(e) => e == StoreError::NotFound && final(self)@ == old(self)@ && forall|i: int|
                    0 <= i < old(self)@.len() ==> (#[trigger] old(self)@[i]).id != id,
            },
    {
        let idx = match self.find_index(id) {
            Some(i) => i,
            None => {
                return Err(StoreError::NotFound);
            },
        };
        let row = &self.rows[idx];
        let new_row = Memo {
            id: row.id,
            uid: row.uid.clone(),
            created_ts: row.created_ts,
            updated_ts: now,
            category: match params.category {
                Some(c) => c,
                None => row.category.clone(),
            },
            target_date: match params.target_date {
                Some(d) => Some(d),
                None => match &row.target_date {
                    Some(d) => Some(d.clone()),
                    None => None,
                },
            },
            completion_status: match params.completion_status {
                Some(s) => s,
                None => row.completion_status.clone(),
            },
            content: match params.content {
                Some(c) => c,
                None => row.content.clone(),
            },
            pinned: match params.pinned {
                Some(b) => b,
                None => row.pinned,
            },
            archived: match params.archived {
                Some(b) => b,
                None => row.archived,
            },
        };
        let ret = new_row.clone();
        self.rows.set(idx, new_row);
        Ok(ret)
    }

    /// Merge the supplied fields into the stored row at the current instant.
    /// `updated_ts` never moves backwards: a clock reading earlier than the
    /// row's last change is raised to that instant.
    pub fn update_memo(&mut self, id: i64, params: UpdateMemoParams) -> (r: Result<
        Memo,
        StoreError,
    >)
        requires
            old(self).wf(),
        ensures
            final(self).wf(),
            final(self).spec_next_id() == old(self).spec_next_id(),
            match r {
                Ok(m) => exists|i: int, now: i64|
                    0 <= i < old(self)@.len() && old(self)@[i].id == id && #[trigger] merged_memo(
                        old(self)@[i],
                        params,
                        now,
                        m,
                    ) && m.updated_ts >= old(self)@[i].updated_ts && m.updated_ts >= m.created_ts
                        && final(self)@ == old(self)@.update(i, m),
                Err(e) => e == StoreError::NotFound && final(self)@ == old(self)@ && forall|i: int|
                    0 <= i < old(self)@.len() ==> (#[trigger] old(self)@[i]).id != id,
            },
    {
        let now = crate::host::now_ts();
        let idx = match self.find_index(id) {
            Some(i) => i,
            None => {
                return Err(StoreError::NotFound);
            },
        };
        let stored = self.rows[idx].updated_ts;
        let at: i64 = if now < stored {
            stored
        } else {
            now
        };
        proof {
            assert forall|i: int|
                0 <= i < self@.len() && (#[trigger] self@[i]).id == id implies at >= self@[i].updated_ts by {
                if i != idx as int {
                    assert(self@[i].id != self@[idx as int].id);
                }
            }
        }
        self.update_memo_at(id, params, at)
    }

    /// Advance the completion status of the row with the given id one step
    /// along the fixed cycle, at the given instant, which must not precede
    /// the row's last change (the data model keeps timestamps
    /// forward-moving).
    pub fn toggle_completion_status_at(&mut self, id: i64, now: i64) -> (r: Result<
        Memo,
        StoreError,
    >)
        requires
            old(self).wf(),
            forall|i: int|
                0 <= i < old(self)@.len() && (#[trigger] old(self)@[i]).id == id ==> now >= old(
                    self,
                )@[i].updated_ts,
        ensures
            final(self).wf(),
            final(self).spec_next_id() == old(self).spec_next_id(),
            match r {
                Ok(m) => exists|i: int|
                    0 <= i < old(self)@.len() && (#[trigger] old(self)@[i]).id == id && toggled_memo(
                        old(self)@[i],
                        now,
                        m,
                    ) && m.updated_ts >= old(self)@[i].updated_ts && m.updated_ts >= m.created_ts
                        && final(self)@ == old(self)@.update(i, m),
                Err(e) => e == StoreError::NotFound && final(self)@ == old(self)@ && forall|i: int|
                    0 <= i < old(self)@.len() ==> (#[trigger] old(self)@[i]).id != id,
            },
    {
        let idx = match self.find_index(id) {
            Some(i) => i,
            None => {
                return Err(StoreError::NotFound);
            },
        };
        let row = &self.rows[idx];
        let new_status: String = if row.completion_status.eq(&"pending".to_owned()) {
            "completed".to_owned()
        } else if row.completion_status.eq(&"completed".to_owned()) {
            "incomplete".to_owned()
        } else if row.completion_status.eq(&"incomplete".to_owned()) {
            "pending".to_owned()
        } else {
            "completed".to_owned()
        };
        let new_row = Memo {
            id: row.id,
            uid: row.uid.clone(),
            created_ts: row.created_ts,
            updated_ts: now,
            category: row.category.clone(),
            target_date: match &row.target_date {
                Some(d) => Some(d.clone()),
                None => None,
            },
            completion_status: new_status,
            content: row.content.clone(),
            pinned: row.pinned,
            archived: row.archived,
        };
        let ret = new_row.clone();
        self.rows.set(idx, new_row);
        Ok(ret)
    }

    /// Advance the completion status one step at the current instant.
    /// `updated_ts` never moves backwards: a clock reading earlier than the
    /// row's last change is raised to that instant.
    pub fn toggle_completion_status(&mut self, id: i64) -> (r: Result<Memo, StoreError>)
        requires
            old(self).wf(),
        ensures
            final(self).wf(),
            final(self).spec_next_id() == old(self).spec_next_id(),
            match r {
                Ok(m) => exists|i: int, now: i64|
                    0 <= i < old(self)@.len() && old(self)@[i].id == id && #[trigger] toggled_memo(
                        old(self)@[i],
                        now,
                        m,
                    ) && m.updated_ts >= old(self)@[i].updated_ts && m.updated_ts >= m.created_ts
                        && final(self)@ == old(self)@.update(i, m),
                Err(e) => e == StoreError::NotFound && final(self)@ == old(self)@ && forall|i: int|
                    0 <= i < old(self)@.len() ==> (#[trigger] old(self)@[i]).id != id,
            },
    {
        let now = crate::host::now_ts();
        let idx = match self.find_index(id) {
            Some(i) => i,
            None => {
                return Err(StoreError::NotFound);
            },
        };
        let stored = self.rows[idx].updated_ts;
        let at: i64 = if now < stored {
            stored
        } else {
            now
        };
        proof {
            assert forall|i: int|
                0 <= i < self@.len() && (#[trigger] self@[i]).id == id implies at >= self@[i].updated_ts by {
                if i != idx as int {
                    assert(self@[i].id != self@[idx as int].id);
                }
            }
        }
        self.toggle_completion_status_at(id, at)
    }

    /// Remove the row with the given id; removing an absent id succeeds and
    /// changes nothing.
    pub fn delete_memo(&mut self, id: i64) -> (r: Result<(), StoreError>)
        requires
            old(self).wf(),
        ensures
            final(self).wf(),
            final(self).spec_next_id() == old(self).spec_next_id(),
            r is Ok,
            forall|k: int| 0 <= k < final(self)@.len() ==> (#[trigger] final(self)@[k]).id != id,
            (exists|i: int|
                0 <= i < old(self)@.len() && (#[trigger] old(self)@[i]).id == id && final(self)@
                    == old(self)@.remove(i)) || ((forall|i: int|
                0 <= i < old(self)@.len() ==> (#[trigger] old(self)@[i]).id != id) && final(self)@
                == old(self)@),
    {
        match self.find_index(id) {
            Some(i) => {
                let ghost prev = self@;
                let _ = self.rows.remove(i);
                proof {
                    prev.remove_ensures(i as int);
                }
                Ok(())
            },
            None => Ok(()),
        }
    }

    /// Non-archived memos whose target date is `date` or whose creation day
    /// (as given, row by row, in `days`) is `date`, pinned ones first and
    /// then newest first.
    pub fn memos_on_date(&self, date: &str, days: &Vec<String>) -> (r: Vec<Memo>)
        requires
            days@.len() == self@.len(),
        ensures
            r@ == sort_ordered(date_matches(self@, days_view(days@), date@), listing_order()),
    {
        let date_owned: String = date.to_owned();
        let mut kept: Vec<Memo> = Vec::new();
        let mut i: usize = 0;
        while i < self.rows.len()
            invariant
                i <= self@.len(),
                days@.len() == self@.len(),
                date_owned@ == date@,
                kept@ == date_matches(
                    self@.take(i as int),
                    days_view(days@).take(i as int),
                    date@,
                ),
            decreases self@.len() - i,
        {
            let row = &self.rows[i];
            let keep = if row.archived {
                false
            } else {
                let target_hit = match &row.target_date {
                    Some(t) => t.eq(&date_owned),
                    None => false,
                };
                if target_hit {
                    true
                } else {
                    days[i].eq(&date_owned)
                }
            };
            proof {
                let rows_cur = self@.take(i as int + 1);
                let days_cur = days_view(days@).take(i as int + 1);
                assert(rows_cur.drop_last() =~= self@.take(i as int));
                assert(days_cur.drop_last() =~= days_view(days@).take(i as int));
                assert(rows_cur.last() == self@[i as int]);
                assert(days_cur[rows_cur.len() - 1] == days@[i as int]@);
                assert(keep == on_date(self@[i as int], days@[i as int]@, date@));
            }
            if keep {
                kept.push(row.clone());
            }
            i += 1;
        }
        proof {
            assert(self@.take(self@.len() as int) =~= self@);
            assert(days_view(days@).take(self@.len() as int) =~= days_view(days@));
        }
        sort_memos(kept, true)
    }

    /// Non-archived memos belonging to `date`, by target date or by creation
    /// day in the host's local time zone, pinned ones first and then newest
    /// first.
    pub fn get_memos_by_date(&self, date: &str) -> (r: Result<Vec<Memo>, StoreError>)
        ensures
            match r {
                Ok(v) => {
                    &&& exists|days: Seq<Seq<char>>|
                        days.len() == self@.len() && v@ == sort_ordered(
                            #[trigger] date_matches(self@, days, date@),
                            listing_order(),
                        )
                    &&& forall|k: int| 0 <= k < v@.len() ==> !(#[trigger] v@[k]).archived
                    &&& forall|i: int|
                        0 <= i < self@.len() && !self@[i].archived && (match (
                        #[trigger] self@[i]).target_date {
                            Some(t) => t@ == date@,
                            None => false,
                        }) ==> v@.contains(self@[i])
                },
                Err(_) => false,
            },
    {
        let mut days: Vec<String> = Vec::new();
        let mut i: usize = 0;
        while i < self.rows.len()
            invariant
                i <= self@.len(),
                days@.len() == i,
            decreases self@.len() - i,
        {
            days.push(crate::host::local_day(self.rows[i].created_ts));
            i += 1;
        }
        let v = self.memos_on_date(date, &days);
        proof {
            broadcast use vstd::seq_lib::group_to_multiset_ensures;

            let dv = days_view(days@);
            let dm = date_matches(self@, dv, date@);
            assert(dv.len() == self@.len());
            lemma_date_matches_bounds(self@, dv, date@);
            lemma_memo_orders_total();
            lemma_sort_ordered_permutes(dm, listing_order());
            assert forall|k: int| 0 <= k < v@.len() implies !(#[trigger] v@[k]).archived by {
                assert(v@.contains(v@[k]));
                assert(dm.to_multiset().count(v@[k]) > 0);
                assert(dm.contains(v@[k]));
                let j = choose|j: int| 0 <= j < dm.len() && dm[j] == v@[k];
                assert(!dm[j].archived);
            }
            assert forall|i: int|
                0 <= i < self@.len() && !self@[i].archived && (match (
                #[trigger] self@[i]).target_date {
                    Some(t) => t@ == date@,
                    None => false,
                }) implies v@.contains(self@[i]) by {
                assert(on_date(self@[i], dv[i], date@));
                assert(dm.contains(self@[i]));
                assert(v@.to_multiset().count(self@[i]) > 0);
            }
        }
        Ok(v)
    }
}

fn memo_le(a: &Memo, b: &Memo, by_pin: bool) -> (r: bool)
    ensures
        r == if by_pin {
            memo_listing_leq(*a, *b)
        } else {
            memo_recency_leq(*a, *b)
        },
{
    if by_pin && a.pinned != b.pinned {
        a.pinned
    } else if a.created_ts != b.created_ts {
        a.created_ts > b.created_ts
    } else {
        a.id >= b.id
    }
}

fn sort_memos(v: Vec<Memo>, by_pin: bool) -> (r: Vec<Memo>)
    ensures
        r@ == sort_ordered(
            v@,
            if by_pin {
                listing_order()
            } else {
                recency_order()
            },
        ),
{
    let ghost leq = if by_pin {
        listing_order()
    } else {
        recency_order()
    };
    let mut out: Vec<Memo> = Vec::new();
    let mut i: usize = 0;
    while i < v.len()
        invariant
            i <= v@.len(),
            out@ == sort_ordered(v@.take(i as int), leq),
            leq == (if by_pin {
                listing_order()
            } else {
                recency_order()
            }),
        decreases v@.len() - i,
    {
        let m = v[i].clone();
        let mut j: usize = 0;
        while j < out.len() && !memo_le(&m, &out[j], by_pin)
            invariant
                j <= out@.len(),
                forall|k: int| 0 <= k < j ==> !leq(m, out@[k]),
                leq == (if by_pin {
                    listing_order()
                } else {
                    recency_order()
                }),
            decreases out@.len() - j,
        {
            j += 1;
        }
        proof {
            lemma_ordered_insert_is_insert_at(m, out@, leq, j as int);
            assert(v@.take(i as int + 1).drop_last() =~= v@.take(i as int));
            assert(v@.take(i as int + 1).last() == v@[i as int]);
        }
        out.insert(j, m);
        i += 1;
    }
    proof {
        assert(v@.take(v@.len() as int) =~= v@);
    }
    out
}

fn page_memos(v: &Vec<Memo>, limit: i64, offset: i64) -> (r: Vec<Memo>)
    ensures
        r@ == crate::order::page(v@, limit as int, offset as int),
{
    let ghost off0: int = if offset < 0 {
        0
    } else {
        offset as int
    };
    let mut out: Vec<Memo> = Vec::new();
    let mut skip: i64 = if offset < 0 {
        0
    } else {
        offset
    };
    let mut taken: i64 = 0;
    let mut idx: usize = 0;
    while idx < v.len() && (limit < 0 || taken < limit)
        invariant
            idx <= v@.len(),
            off0 == (if offset < 0 {
                0int
            } else {
                offset as int
            }),
            skip as int == (if off0 - idx >= 0 {
                off0 - idx
            } else {
                0int
            }),
            limit >= 0 ==> 0 <= taken <= limit && taken as int == out@.len(),
            out@ == crate::order::page(v@.take(idx as int), limit as int, offset as int),
        decreases v@.len() - idx,
    {
        proof {
            assert(v@.take(idx as int + 1).drop_last() =~= v@.take(idx as int));
            assert(v@.take(idx as int + 1).last() == v@[idx as int]);
        }
        if skip > 0 {
            skip = skip - 1;
            proof {
                assert(crate::order::page(v@.take(idx as int + 1), limit as int, offset as int)
                    =~= out@);
            }
        } else {
            out.push(v[idx].clone());
            if limit >= 0 {
                taken = taken + 1;
            }
            proof {
                let prev = v@.take(idx as int);
                let cur = v@.take(idx as int + 1);
                assert(cur.subrange(off0, idx as int + 1) =~= prev.subrange(off0, idx as int).push(
                    v@[idx as int],
                ));
                assert(crate::order::page(cur, limit as int, offset as int) =~= out@);
            }
        }
        idx += 1;
    }
    proof {
        if idx == v@.len() {
            assert(v@.take(idx as int) =~= v@);
        } else {
            // stopped because the window is full
            assert(limit >= 0 && taken == limit);
            assert(crate::order::page(v@, limit as int, offset as int) =~= out@);
        }
    }
    out
}

} // verus!
