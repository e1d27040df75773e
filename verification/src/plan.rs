//! The daily-plan store: titled to-do items scoped to a calendar date.

use vstd::pervasive::VecAdditionalExecFns;
use vstd::prelude::*;
use vstd::relations::strongly_connected;
use vstd::relations::transitive;

use crate::StoreError;
use crate::memo::opt_view;
use crate::order::lemma_ordered_insert_is_insert_at;
use crate::order::sort_ordered;

verus! {

/// A daily-plan row, fully populated.
#[derive(Debug)]
pub struct DailyPlan {
    pub id: i64,
    pub plan_date: String,
    pub title: String,
    pub description: Option<String>,
    pub category: String,
    pub completed: bool,
    pub priority: i64,
    pub created_ts: i64,
    pub updated_ts: i64,
    pub completed_ts: Option<i64>,
}

impl Clone for DailyPlan {
    fn clone(&self) -> (r: Self)
        ensures
            r == *self,
    {
        DailyPlan {
            id: self.id,
            plan_date: self.plan_date.clone(),
            title: self.title.clone(),
            description: match &self.description {
                Some(d) => Some(d.clone()),
                None => None,
            },
            category: self.category.clone(),
            completed: self.completed,
            priority: self.priority,
            created_ts: self.created_ts,
            updated_ts: self.updated_ts,
            completed_ts: self.completed_ts,
        }
    }
}

/// What a caller supplies to create a plan.
pub struct CreatePlanParams {
    pub plan_date: String,
    pub title: String,
    pub description: Option<String>,
    pub category: Option<String>,
    pub priority: Option<i64>,
}

/// Queue order: higher priority first; among equal priorities the earlier
/// created first, ties broken towards the lower (older) row id.
pub open spec fn plan_queue_leq(a: DailyPlan, b: DailyPlan) -> bool {
    if a.priority != b.priority {
        a.priority > b.priority
    } else if a.created_ts != b.created_ts {
        a.created_ts < b.created_ts
    } else {
        a.id <= b.id
    }
}

pub open spec fn queue_order() -> spec_fn(DailyPlan, DailyPlan) -> bool {
    |a: DailyPlan, b: DailyPlan| plan_queue_leq(a, b)
}

/// The queue order admits every pair and is transitive, so sorting under it
/// yields a sorted permutation.
pub proof fn lemma_queue_order_total()
    ensures
        transitive(queue_order()),
        strongly_connected(queue_order()),
{
}

/// Date listings come out sorted under the queue order and are a
/// permutation of the rows they select.
pub proof fn lemma_plan_sort_order(s: Seq<DailyPlan>)
    ensures
        vstd::relations::sorted_by(sort_ordered(s, queue_order()), queue_order()),
        sort_ordered(s, queue_order()).to_multiset() == s.to_multiset(),
{
    lemma_queue_order_total();
    crate::order::lemma_sort_ordered_sorted(s, queue_order());
    crate::order::lemma_sort_ordered_permutes(s, queue_order());
}

/// The plans a date listing considers: exactly those scheduled on the date.
pub open spec fn dated_pred(date: Seq<char>) -> spec_fn(DailyPlan) -> bool {
    |p: DailyPlan| p.plan_date@ == date
}

/// A fully populated plan as `create` stores it: the supplied date, title
/// and description, the category defaulted to "daily", the priority
/// defaulted to 0, not completed, and both timestamps the creation instant.
pub open spec fn fresh_plan(p: DailyPlan, params: CreatePlanParams, now: i64, id: int) -> bool {
    &&& p.id == id
    &&& p.plan_date@ == params.plan_date@
    &&& p.title@ == params.title@
    &&& opt_view(p.description) == opt_view(params.description)
    &&& p.category@ == match params.category {
        Some(c) => c@,
        None => "daily"@,
    }
    &&& p.completed == false
    &&& p.priority == match params.priority {
        Some(x) => x,
        None => 0,
    }
    &&& p.created_ts == now
    &&& p.updated_ts == now
    &&& p.completed_ts is None
}

/// A created plan as seen by a caller: everything of `fresh_plan` except the
/// creation instant, of which only `created_ts == updated_ts` is visible.
pub open spec fn created_plan(p: DailyPlan, params: CreatePlanParams, id: int) -> bool {
    &&& p.id == id
    &&& p.plan_date@ == params.plan_date@
    &&& p.title@ == params.title@
    &&& opt_view(p.description) == opt_view(params.description)
    &&& p.category@ == match params.category {
        Some(c) => c@,
        None => "daily"@,
    }
    &&& p.completed == false
    &&& p.priority == match params.priority {
        Some(x) => x,
        None => 0,
    }
    &&& p.created_ts == p.updated_ts
    &&& p.completed_ts is None
}

/// The row produced by toggling completion of `p` at instant `now`: the flag
/// flips, the completion instant is stamped on the way to completed and
/// cleared on the way back, and `updated_ts` becomes `now`.
pub open spec fn toggled_plan(p: DailyPlan, now: i64, r: DailyPlan) -> bool {
    &&& r.id == p.id
    &&& r.plan_date@ == p.plan_date@
    &&& r.title@ == p.title@
    &&& opt_view(r.description) == opt_view(p.description)
    &&& r.category@ == p.category@
    &&& r.completed == !p.completed
    &&& r.priority == p.priority
    &&& r.created_ts == p.created_ts
    &&& r.updated_ts == now
    &&& r.completed_ts == if !p.completed {
        Some(now)
    } else {
        None::<i64>
    }
}

/// The row produced by a partial update of `p`: a supplied title or
/// description replaces the stored one, an absent one keeps it; date,
/// category, priority and completion state never change, and `updated_ts`
/// becomes the update instant.
pub open spec fn updated_plan(
    p: DailyPlan,
    title: Option<String>,
    description: Option<String>,
    now: i64,
    r: DailyPlan,
) -> bool {
    &&& r.id == p.id
    &&& r.plan_date@ == p.plan_date@
    &&& r.title@ == match title {
        Some(t) => t@,
        None => p.title@,
    }
    &&& opt_view(r.description) == match description {
        Some(d) => Some(d@),
        None => opt_view(p.description),
    }
    &&& r.category@ == p.category@
    &&& r.completed == p.completed
    &&& r.priority == p.priority
    &&& r.created_ts == p.created_ts
    &&& r.updated_ts == now
    &&& r.completed_ts == p.completed_ts
}

/// The in-memory plan table, with the next row id the storage will assign.
pub struct PlanStore {
    rows: Vec<DailyPlan>,
    next_id: i64,
}

impl View for PlanStore {
    type V = Seq<DailyPlan>;

    closed spec fn view(&self) -> Seq<DailyPlan> {
        self.rows@
    }
}

fn plan_le(a: &DailyPlan, b: &DailyPlan) -> (r: bool)
    ensures
        r == plan_queue_leq(*a, *b),
{
    if a.priority != b.priority {
        a.priority > b.priority
    } else if a.created_ts != b.created_ts {
        a.created_ts < b.created_ts
    } else {
        a.id <= b.id
    }
}

fn sort_plans(v: Vec<DailyPlan>) -> (r: Vec<DailyPlan>)
    ensures
        r@ == sort_ordered(v@, queue_order()),
{
    let ghost leq = queue_order();
    let mut out: Vec<DailyPlan> = Vec::new();
    let mut i: usize = 0;
    while i < v.len()
        invariant
            i <= v@.len(),
            out@ == sort_ordered(v@.take(i as int), leq),
            leq == queue_order(),
        decreases v@.len() - i,
    {
        let p = v[i].clone();
        let mut j: usize = 0;
        while j < out.len() && !plan_le(&p, &out[j])
            invariant
                j <= out@.len(),
                forall|k: int| 0 <= k < j ==> !leq(p, out@[k]),
                leq == queue_order(),
            decreases out@.len() - j,
        {
            j += 1;
        }
        proof {
            lemma_ordered_insert_is_insert_at(p, out@, leq, j as int);
            assert(v@.take(i as int + 1).drop_last() =~= v@.take(i as int));
            assert(v@.take(i as int + 1).last() == v@[i as int]);
        }
        out.insert(j, p);
        i += 1;
    }
    proof {
        assert(v@.take(v@.len() as int) =~= v@);
    }
    out
}

impl PlanStore {
    /// Row ids are unique and below the next id to be assigned, and no row
    /// was last updated before it was created.
    pub closed spec fn wf(self) -> bool {
        &&& 1 <= self.next_id
        &&& forall|i: int| 0 <= i < self@.len() ==> 1 <= (#[trigger] self@[i]).id < self.next_id
        &&& forall|i: int, j: int| 0 <= i < j < self@.len() ==> self@[i].id != self@[j].id
        &&& forall|i: int|
            0 <= i < self@.len() ==> (#[trigger] self@[i]).created_ts <= self@[i].updated_ts
    }

    /// The next row id the store will assign.
    pub closed spec fn spec_next_id(self) -> int {
        self.next_id as int
    }

    pub fn new() -> (r: Self)
        ensures
            r.wf(),
            r@ =~= Seq::<DailyPlan>::empty(),
            r.spec_next_id() == 1,
    {
        PlanStore { rows: Vec::new(), next_id: 1 }
    }

    fn find_index(&self, id: i64) -> (r: Option<usize>)
        ensures
            match r {
                Some(i) => i < self@.len() && self@[i as int].id == id,
                None => forall|i: int| 0 <= i < self@.len() ==> (#[trigger] self@[i]).id != id,
            },
    {
        let mut i: usize = 0;
        while i < self.rows.len()
            invariant
                i <= self.rows.len(),
                forall|k: int| 0 <= k < i ==> (#[trigger] self@[k]).id != id,
            decreases self.rows.len() - i,
        {
            if self.rows[i].id == id {
                return Some(i);
            }
            i += 1;
        }
        None
    }

    /// Insert a new plan built from `params` at the given creation instant.
    /// Fails exactly when the id space is exhausted.
    pub fn create_plan_at(&mut self, params: CreatePlanParams, now: i64) -> (r: Result<
        DailyPlan,
        StoreError,
    >)
        requires
            old(self).wf(),
        ensures
            final(self).wf(),
            match r {
                Ok(p) => {
                    &&& old(self).spec_next_id() < i64::MAX
                    &&& fresh_plan(p, params, now, old(self).spec_next_id())
                    &&& final(self)@ == old(self)@.push(p)
                    &&& final(self).spec_next_id() == old(self).spec_next_id() + 1
                },
                Err(e) => {
                    &&& e == StoreError::PersistenceError
                    &&& final(self)@ == old(self)@
                    &&& final(self).spec_next_id() == old(self).spec_next_id()
                    &&& old(self).spec_next_id() == i64::MAX
                },
            },
    {
        if self.next_id == i64::MAX {
            return Err(StoreError::PersistenceError);
        }
        let id = self.next_id;
        let p = DailyPlan {
            id,
            plan_date: params.plan_date,
            title: params.title,
            description: params.description,
            category: match params.category {
                Some(c) => c,
                None => "daily".to_owned(),
            },
            completed: false,
            priority: match params.priority {
                Some(x) => x,
                None => 0,
            },
            created_ts: now,
            updated_ts: now,
            completed_ts: None,
        };
        let ret = p.clone();
        self.rows.push(p);
        self.next_id = id + 1;
        Ok(ret)
    }

    /// Create a plan at the current instant.  Fails exactly when the id
    /// space is exhausted.
    pub fn create_plan(&mut self, params: CreatePlanParams) -> (r: Result<DailyPlan, StoreError>)
        requires
            old(self).wf(),
        ensures
            final(self).wf(),
            match r {
                Ok(p) => {
                    &&& created_plan(p, params, old(self).spec_next_id())
                    &&& final(self)@ == old(self)@.push(p)
                    &&& final(self).spec_next_id() == old(self).spec_next_id() + 1
                },
                Err(e) => {
                    &&& e == StoreError::PersistenceError
                    &&& final(self)@ == old(self)@
                    &&& final(self).spec_next_id() == old(self).spec_next_id()
                    &&& old(self).spec_next_id() == i64::MAX
                },
            },
    {
        let now = crate::host::now_ts();
        self.create_plan_at(params, now)
    }

    /// Re-insert a fully populated row read back from persistent storage,
    /// keeping the next id above every restored one.  Fails exactly when the
    /// row id is out of the assignable range or collides, or the row claims
    /// an update earlier than its creation (corrupt data).
    pub fn restore_plan(&mut self, p: DailyPlan) -> (r: Result<(), StoreError>)
        requires
            old(self).wf(),
        ensures
            final(self).wf(),
            match r {
                Ok(()) => {
                    &&& 1 <= p.id < i64::MAX
                    &&& p.created_ts <= p.updated_ts
                    &&& forall|i: int|
                        0 <= i < old(self)@.len() ==> (#[trigger] old(self)@[i]).id != p.id
                    &&& final(self)@ == old(self)@.push(p)
                    &&& final(self).spec_next_id() == if p.id + 1 > old(self).spec_next_id() {
                        p.id + 1
                    } else {
                        old(self).spec_next_id()
                    }
                },
                Err(e) => {
                    &&& e == StoreError::PersistenceError
                    &&& final(self)@ == old(self)@
                    &&& final(self).spec_next_id() == old(self).spec_next_id()
                    &&& (p.id < 1 || p.id == i64::MAX || p.updated_ts < p.created_ts || (exists|i: int|
                        0 <= i < old(self)@.len() && (#[trigger] old(self)@[i]).id == p.id))
                },
            },
    {
        if p.id < 1 || p.id == i64::MAX {
            return Err(StoreError::PersistenceError);
        }
        if p.updated_ts < p.created_ts {
            return Err(StoreError::PersistenceError);
        }
        if self.find_index(p.id).is_some() {
            return Err(StoreError::PersistenceError);
        }
        if p.id >= self.next_id {
            self.next_id = p.id + 1;
        }
        self.rows.push(p);
        Ok(())
    }

    /// The plan with the given row id; `NotFound` exactly when no row has it.
    pub fn get_plan_by_id(&self, id: i64) -> (r: Result<DailyPlan, StoreError>)
        ensures
            match r {
                Ok(p) => p.id == id && exists|i: int|
                    0 <= i < self@.len() && #[trigger] self@[i] == p,
                Err(e) => e == StoreError::NotFound && forall|i: int|
                    0 <= i < self@.len() ==> (#[trigger] self@[i]).id != id,
            },
    {
        match self.find_index(id) {
            Some(i) => Ok(self.rows[i].clone()),
            None => Err(StoreError::NotFound),
        }
    }

    /// The plans scheduled on `date`, highest priority first and, within a
    /// priority, earliest created first.
    pub fn get_plans_by_date(&self, date: &str) -> (r: Result<Vec<DailyPlan>, StoreError>)
        ensures
            match r {
                Ok(v) => v@ == sort_ordered(self@.filter(dated_pred(date@)), queue_order()),
                Err(_) => false,
            },
    {
        let date_owned: String = date.to_owned();
        let ghost pred = dated_pred(date@);
        let mut kept: Vec<DailyPlan> = Vec::new();
        let mut i: usize = 0;
        while i < self.rows.len()
            invariant
                i <= self@.len(),
                date_owned@ == date@,
                pred == dated_pred(date@),
                kept@ == self@.take(i as int).filter(pred),
            decreases self@.len() - i,
        {
            let row = &self.rows[i];
            let keep = row.plan_date.eq(&date_owned);
            proof {
                crate::order::lemma_filter_take_step(self@, pred, i as int);
            }
            if keep {
                kept.push(row.clone());
            }
            i += 1;
        }
        proof {
            assert(self@.take(self@.len() as int) =~= self@);
        }
        Ok(sort_plans(kept))
    }

    /// Flip the completion flag of the row with the given id at the given
    /// instant, stamping or clearing the completion instant accordingly.
    /// The instant must not precede the row's last change (the data model
    /// keeps timestamps forward-moving).
    pub fn toggle_plan_completion_at(&mut self, id: i64, now: i64) -> (r: Result<
        DailyPlan,
        StoreError,
    >)
        requires
            old(self).wf(),
            forall|i: int|
                0 <= i < old(self)@.len() && (#[trigger] old(self)@[i]).id == id ==> now >= old(
                    self,
                )@[i].updated_ts,
        ensures
            final(self).wf(),
            final(self).spec_next_id() == old(self).spec_next_id(),
            match r {
                Ok(p) => exists|i: int|
                    0 <= i < old(self)@.len() && old(self)@[i].id == id && #[trigger] toggled_plan(
                        old(self)@[i],
                        now,
                        p,
                    ) && p.updated_ts >= old(self)@[i].updated_ts && p.updated_ts >= p.created_ts
                        && final(self)@ == old(self)@.update(i, p),
                Err(e) => e == StoreError::NotFound && final(self)@ == old(self)@ && forall|i: int|
                    0 <= i < old(self)@.len() ==> (#[trigger] old(self)@[i]).id != id,
            },
    {
        let idx = match self.find_index(id) {
            Some(i) => i,
            None => {
                return Err(StoreError::NotFound);
            },
        };
        let row = &self.rows[idx];
        let new_row = DailyPlan {
            id: row.id,
            plan_date: row.plan_date.clone(),
            title: row.title.clone(),
            description: match &row.description {
                Some(d) => Some(d.clone()),
                None => None,
            },
            category: row.category.clone(),
            completed: !row.completed,
            priority: row.priority,
            created_ts: row.created_ts,
            updated_ts: now,
            completed_ts: if !row.completed {
                Some(now)
            } else {
                None
            },
        };
        let ret = new_row.clone();
        self.rows.set(idx, new_row);
        proof {
            assert(toggled_plan(old(self)@[idx as int], now, ret));
        }
        Ok(ret)
    }

    /// Flip the completion flag at the current instant.  `updated_ts` never
    /// moves backwards: a clock reading earlier than the row's last change
    /// is raised to that instant.
    pub fn toggle_plan_completion(&mut self, id: i64) -> (r: Result<DailyPlan, StoreError>)
        requires
            old(self).wf(),
        ensures
            final(self).wf(),
            final(self).spec_next_id() == old(self).spec_next_id(),
            match r {
                Ok(p) => exists|i: int, now: i64|
                    0 <= i < old(self)@.len() && old(self)@[i].id == id && #[trigger] toggled_plan(
                        old(self)@[i],
                        now,
                        p,
                    ) && p.updated_ts >= old(self)@[i].updated_ts && p.updated_ts >= p.created_ts
                        && final(self)@ == old(self)@.update(i, p),
                Err(e) => e == StoreError::NotFound && final(self)@ == old(self)@ && forall|i: int|
                    0 <= i < old(self)@.len() ==> (#[trigger] old(self)@[i]).id != id,
            },
    {
        let now = crate::host::now_ts();
        let idx = match self.find_index(id) {
            Some(i) => i,
            None => {
                return Err(StoreError::NotFound);
            },
        };
        let stored = self.rows[idx].updated_ts;
        let at: i64 = if now < stored {
            stored
        } else {
            now
        };
        proof {
            assert forall|i: int|
                0 <= i < self@.len() && (#[trigger] self@[i]).id == id implies at >= self@[i].updated_ts by {
                if i != idx as int {
                    assert(self@[i].id != self@[idx as int].id);
                }
            }
        }
        self.toggle_plan_completion_at(id, at)
    }

    /// Remove the row with the given id; removing an absent id succeeds and
    /// changes nothing.
    pub fn delete_plan(&mut self, id: i64) -> (r: Result<(), StoreError>)
        requires
            old(self).wf(),
        ensures
            final(self).wf(),
            final(self).spec_next_id() == old(self).spec_next_id(),
            r is Ok,
            forall|k: int| 0 <= k < final(self)@.len() ==> (#[trigger] final(self)@[k]).id != id,
            (exists|i: int|
                0 <= i < old(self)@.len() && (#[trigger] old(self)@[i]).id == id && final(self)@
                    == old(self)@.remove(i)) || ((forall|i: int|
                0 <= i < old(self)@.len() ==> (#[trigger] old(self)@[i]).id != id) && final(self)@
                == old(self)@),
    {
        match self.find_index(id) {
            Some(i) => {
                let ghost prev = self@;
                let _ = self.rows.remove(i);
                proof {
                    prev.remove_ensures(i as int);
                }
                Ok(())
            },
            None => Ok(()),
        }
    }

    /// Merge a supplied title or description into the stored row with the
    /// given id at the given instant, which must not precede the row's last
    /// change (the data model keeps timestamps forward-moving).  `NotFound`
    /// exactly when no row has it.
    pub fn update_plan_at(
        &mut self,
        id: i64,
        title: Option<String>,
        description: Option<String>,
        now: i64,
    ) -> (r: Result<DailyPlan, StoreError>)
        requires
            old(self).wf(),
            forall|i: int|
                0 <= i < old(self)@.len() && (#[trigger] old(self)@[i]).id == id ==> now >= old(
                    self,
                )@[i].updated_ts,
        ensures
            final(self).wf(),
            final(self).spec_next_id() == old(self).spec_next_id(),
            match r {
                Ok(p) => exists|i: int|
                    0 <= i < old(self)@.len() && old(self)@[i].id == id && #[trigger] updated_plan(
                        old(self)@[i],
                        title,
                        description,
                        now,
                        p,
                    ) && p.updated_ts >= old(self)@[i].updated_ts && p.updated_ts >= p.created_ts
                        && final(self)@ == old(self)@.update(i, p),
                Err(e) => e == StoreError::NotFound && final(self)@ == old(self)@ && forall|i: int|
                    0 <= i < old(self)@.len() ==> (#[trigger] old(self)@[i]).id != id,
            },
    {
        let idx = match self.find_index(id) {
            Some(i) => i,
            None => {
                return Err(StoreError::NotFound);
            },
        };
        let row = &self.rows[idx];
        let new_row = DailyPlan {
            id: row.id,
            plan_date: row.plan_date.clone(),
            title: match title {
                Some(t) => t,
                None => row.title.clone(),
            },
            description: match description {
                Some(d) => Some(d),
                None => match &row.description {
                    Some(d) => Some(d.clone()),
                    None => None,
                },
            },
            category: row.category.clone(),
            completed: row.completed,
            priority: row.priority,
            created_ts: row.created_ts,
            updated_ts: now,
            completed_ts: row.completed_ts,
        };
        let ret = new_row.clone();
        self.rows.set(idx, new_row);
        proof {
            assert(updated_plan(old(self)@[idx as int], title, description, now, ret));
        }
        Ok(ret)
    }

    /// Merge a supplied title or description into the stored row at the
    /// current instant.  `updated_ts` never moves backwards: a clock reading
    /// earlier than the row's last change is raised to that instant.
    pub fn update_plan(&mut self, id: i64, title: Option<String>, description: Option<String>) -> (r:
        Result<DailyPlan, StoreError>)
        requires
            old(self).wf(),
        ensures
            final(self).wf(),
            final(self).spec_next_id() == old(self).spec_next_id(),
            match r {
                Ok(p) => exists|i: int, now: i64|
                    0 <= i < old(self)@.len() && old(self)@[i].id == id && #[trigger] updated_plan(
                        old(self)@[i],
                        title,
                        description,
                        now,
                        p,
                    ) && p.updated_ts >= old(self)@[i].updated_ts && p.updated_ts >= p.created_ts
                        && final(self)@ == old(self)@.update(i, p),
                Err(e) => e == StoreError::NotFound && final(self)@ == old(self)@ && forall|i: int|
                    0 <= i < old(self)@.len() ==> (#[trigger] old(self)@[i]).id != id,
            },
    {
        let now = crate::host::now_ts();
        let idx = match self.find_index(id) {
            Some(i) => i,
            None => {
                return Err(StoreError::NotFound);
            },
        };
        let stored = self.rows[idx].updated_ts;
        let at: i64 = if now < stored {
            stored
        } else {
            now
        };
        proof {
            assert forall|i: int|
                0 <= i < self@.len() && (#[trigger] self@[i]).id == id implies at >= self@[i].updated_ts by {
                if i != idx as int {
                    assert(self@[i].id != self@[idx as int].id);
                }
            }
        }
        self.update_plan_at(id, title, description, at)
    }
}

} // verus!
