//! The categorisation wizard: a walk over the distinct descriptions that no rule
//! categorised, assigning or creating a category for each.
use vstd::prelude::*;
use crate::categorize::{suggest_core, suggest_rule};
use crate::models::{ImportRule, Transaction};
use crate::text::{chars_of, lower_of, str_equals, trim, trim_str, upper_of};

verus! {

/// The distinct original descriptions of the uncategorised transactions among the
/// first `n`, in the order they first appear.
pub open spec fn unique_uncategorized(batch: Seq<Transaction>, n: nat) -> Seq<Seq<char>>
    decreases n,
{
    if n == 0 {
        Seq::empty()
    } else {
        let prev = unique_uncategorized(batch, (n - 1) as nat);
        let t = batch[n - 1];
        if t.category_id is None && !prev.contains(t.original_description@) {
            prev.push(t.original_description@)
        } else {
            prev
        }
    }
}

/// How many of the first `n` transactions are uncategorised with description `d`.
pub open spec fn count_uncategorized(batch: Seq<Transaction>, d: Seq<char>, n: nat) -> nat
    decreases n,
{
    if n == 0 {
        0
    } else {
        count_uncategorized(batch, d, (n - 1) as nat) + if batch[n - 1].category_id is None
            && batch[n - 1].original_description@ == d {
            1nat
        } else {
            0nat
        }
    }
}

#[derive(Clone, Copy, Debug, PartialEq, Eq, Structural)]
pub enum WizardPhase {
    /// Choosing a category for the current description.
    Picking,
    /// Typing the name of a new category for the current description.
    Creating,
    /// Every description has been handled; the batch is ready to commit.
    Done,
    /// The operator backed out; categories already applied stay.
    Abandoned,
}

/// What the operator did.
pub enum WizardEvent {
    /// Give the current description an existing category.
    Assign(i64),
    StartCreating,
    CancelCreating,
    /// The typed name of a new category.
    SubmitName(String),
    /// The new category was stored under this id.
    CategoryCreated(i64),
    SkipOne,
    SkipAll,
    Abandon,
}

/// What the caller must do for the wizard.
pub enum WizardEffect {
    /// Store a new category with this name, then report its id.
    PersistCategory(String),
    /// Store a rule so that later imports categorise this merchant by themselves.
    PersistRule(ImportRule),
    /// Hand the whole batch to storage.
    Commit,
}

pub struct WizardState {
    /// Each distinct uncategorised description with the number of transactions that carry it.
    pub descriptions: Vec<(String, usize)>,
    /// The description being handled.
    pub index: usize,
    pub phase: WizardPhase,
    /// Descriptions the operator chose to leave uncategorised.
    pub skipped: Vec<String>,
}

impl WizardState {
    pub open spec fn desc(&self, j: int) -> Seq<char> {
        self.descriptions@[j].0@
    }

    pub open spec fn is_skipped(&self, d: Seq<char>) -> bool {
        exists|k: int| 0 <= k < self.skipped@.len() && #[trigger] self.skipped@[k]@ == d
    }

    /// Still to come: the description is the current one or a later one.
    pub open spec fn is_pending(&self, d: Seq<char>) -> bool {
        exists|j: int| self.index <= j < self.descriptions@.len() && #[trigger] self.desc(j) == d
    }

    pub open spec fn wf(&self) -> bool {
        &&& self.index <= self.descriptions@.len()
        &&& (self.phase is Picking || self.phase is Creating) ==> self.index < self.descriptions@.len()
        &&& self.phase is Done ==> self.index == self.descriptions@.len()
    }

    /// Every transaction of the batch is categorised, still to come, or skipped.
    pub open spec fn covers(&self, batch: Seq<Transaction>) -> bool {
        forall|t: int|
            0 <= t < batch.len() ==> (#[trigger] batch[t]).category_id is Some || self.is_pending(
                batch[t].original_description@,
            ) || self.is_skipped(batch[t].original_description@)
    }
}

/// Every uncategorised description among the first `n` is listed.
proof fn lemma_unique_contains(batch: Seq<Transaction>, n: nat, t: int)
    requires
        0 <= t < n <= batch.len(),
        batch[t].category_id is None,
    ensures
        unique_uncategorized(batch, n).contains(batch[t].original_description@),
    decreases n,
{
    let prev = unique_uncategorized(batch, (n - 1) as nat);
    let cur = unique_uncategorized(batch, n);
    let d = batch[t].original_description@;
    if t < n - 1 {
        lemma_unique_contains(batch, (n - 1) as nat, t);
    }
    if prev.contains(d) {
        let k = choose|k: int| 0 <= k < prev.len() && prev[k] == d;
        assert(cur[k] == d);
    } else {
        assert(cur[prev.len() as int] == d);
    }
}

/// The listed descriptions are pairwise distinct.
pub proof fn lemma_unique_no_duplicates(batch: Seq<Transaction>, n: nat)
    requires
        n <= batch.len(),
    ensures
        forall|i: int, j: int|
            0 <= i < j < unique_uncategorized(batch, n).len() ==> unique_uncategorized(batch, n)[i]
                != unique_uncategorized(batch, n)[j],
    decreases n,
{
    if n > 0 {
        lemma_unique_no_duplicates(batch, (n - 1) as nat);
        let prev = unique_uncategorized(batch, (n - 1) as nat);
        let cur = unique_uncategorized(batch, n);
        assert forall|i: int, j: int| 0 <= i < j < cur.len() implies cur[i] != cur[j] by {
            if j == prev.len() {
                assert(!prev.contains(cur[j]));
                assert(prev[i] == cur[i]);
            } else {
                assert(cur[i] == prev[i] && cur[j] == prev[j]);
            }
        }
    }
}

/// The listed descriptions come in the order of their first appearance: each is
/// the description of an uncategorised transaction, and no earlier transaction
/// brings a description listed after it.
pub proof fn lemma_unique_first_seen_order(batch: Seq<Transaction>, n: nat, i: int, j: int)
    requires
        n <= batch.len(),
        0 <= i < j < unique_uncategorized(batch, n).len(),
    ensures
        exists|ti: int|
            0 <= ti < n && #[trigger] batch[ti].original_description@ == unique_uncategorized(batch, n)[i]
                && batch[ti].category_id is None && forall|tj: int|
                0 <= tj <= ti ==> (#[trigger] batch[tj]).category_id is Some
                    || batch[tj].original_description@ != unique_uncategorized(batch, n)[j],
    decreases n,
{
    let prev = unique_uncategorized(batch, (n - 1) as nat);
    let cur = unique_uncategorized(batch, n);
    if j < prev.len() {
        lemma_unique_first_seen_order(batch, (n - 1) as nat, i, j);
    } else {
        let d = cur[j];
        assert(d == batch[n - 1].original_description@);
        assert(!prev.contains(d));
        lemma_unique_witness(batch, (n - 1) as nat, i);
        let ti = choose|ti: int|
            0 <= ti < n - 1 && #[trigger] batch[ti].original_description@ == prev[i]
                && batch[ti].category_id is None;
        assert forall|tj: int| 0 <= tj <= ti implies (#[trigger] batch[tj]).category_id is Some
            || batch[tj].original_description@ != d by {
            if batch[tj].category_id is None && batch[tj].original_description@ == d {
                lemma_unique_contains(batch, (n - 1) as nat, tj);
            }
        }
        assert(batch[ti].original_description@ == cur[i]);
    }
}

/// Each listed description belongs to some uncategorised transaction.
proof fn lemma_unique_witness(batch: Seq<Transaction>, n: nat, i: int)
    requires
        n <= batch.len(),
        0 <= i < unique_uncategorized(batch, n).len(),
    ensures
        exists|ti: int|
            0 <= ti < n && #[trigger] batch[ti].original_description@ == unique_uncategorized(batch, n)[i]
                && batch[ti].category_id is None,
    decreases n,
{
    let prev = unique_uncategorized(batch, (n - 1) as nat);
    if i < prev.len() {
        lemma_unique_witness(batch, (n - 1) as nat, i);
    } else {
        assert(batch[n - 1].original_description@ == unique_uncategorized(batch, n)[i]);
    }
}

/// The number of uncategorised transactions in `batch` whose description is `d`.
fn count_for(batch: &Vec<Transaction>, d: &String) -> (r: usize)
    ensures
        r == count_uncategorized(batch@, d@, batch@.len() as nat),
{
    let mut c: usize = 0;
    let mut i: usize = 0;
    while i < batch.len()
        invariant
            i <= batch@.len(),
            c == count_uncategorized(batch@, d@, i as nat),
            c <= i,
        decreases batch@.len() - i,
    {
        if batch[i].category_id.is_none() && str_equals(batch[i].original_description.as_str(), d.as_str()) {
            c = c + 1;
        }
        i = i + 1;
    }
    c
}

/// Whether some listed description equals `d`.
fn listed(list: &Vec<String>, d: &String) -> (r: bool)
    ensures
        r == exists|k: int| 0 <= k < list@.len() && #[trigger] list@[k]@ == d@,
{
    let mut i: usize = 0;
    while i < list.len()
        invariant
            i <= list@.len(),
            forall|k: int| 0 <= k < i ==> #[trigger] list@[k]@ != d@,
        decreases list@.len() - i,
    {
        if str_equals(list[i].as_str(), d.as_str()) {
            return true;
        }
        i = i + 1;
    }
    false
}

} // verus!

verus! {

/// `batch` after giving category `id` to every uncategorised transaction whose
/// original description is `d`.
pub open spec fn applied(batch: Seq<Transaction>, d: Seq<char>, id: i64) -> Seq<Transaction> {
    Seq::new(
        batch.len(),
        |i: int|
            if batch[i].category_id is None && batch[i].original_description@ == d {
                Transaction { category_id: Some(id), ..batch[i] }
            } else {
                batch[i]
            },
    )
}

/// Give category `id` to every uncategorised transaction whose original
/// description is exactly `description`.
pub fn apply_category(batch: &mut Vec<Transaction>, description: &String, id: i64)
    ensures
        final(batch)@ == applied(old(batch)@, description@, id),
{
    let ghost orig = batch@;
    let mut i: usize = 0;
    while i < batch.len()
        invariant
            i <= batch@.len(),
            batch@.len() == orig.len(),
            forall|j: int| i <= j < orig.len() ==> #[trigger] batch@[j] == orig[j],
            forall|j: int| 0 <= j < i ==> #[trigger] batch@[j] == applied(orig, description@, id)[j],
        decreases batch@.len() - i,
    {
        if batch[i].category_id.is_none() && str_equals(batch[i].original_description.as_str(), description.as_str()) {
            batch[i].category_id = Some(id);
        }
        i = i + 1;
    }
    assert(batch@ =~= applied(orig, description@, id));
}

/// The category that an event gives the current description, if it gives one.
pub open spec fn assigned_by(phase: WizardPhase, e: WizardEvent) -> Option<i64> {
    match (phase, e) {
        (WizardPhase::Picking, WizardEvent::Assign(id)) => Some(id),
        (WizardPhase::Creating, WizardEvent::CategoryCreated(id)) => Some(id),
        _ => None,
    }
}

/// Whether an event moves on to the next description.
pub open spec fn advances(phase: WizardPhase, e: WizardEvent) -> bool {
    assigned_by(phase, e) is Some || (phase is Picking && e is SkipOne)
}

impl WizardState {
    /// The wizard for a batch: its distinct uncategorised descriptions in order of
    /// first appearance, each with its number of transactions. With none, it is
    /// done at once.
    pub fn start(batch: &Vec<Transaction>) -> (r: WizardState)
        ensures
            r.wf(),
            r.covers(batch@),
            r.index == 0,
            r.skipped@.len() == 0,
            r.descriptions@.len() == unique_uncategorized(batch@, batch@.len() as nat).len(),
            forall|j: int|
                0 <= j < r.descriptions@.len() ==> r.desc(j) == unique_uncategorized(batch@, batch@.len() as nat)[j]
                    && (#[trigger] r.descriptions@[j]).1 == count_uncategorized(
                    batch@,
                    r.desc(j),
                    batch@.len() as nat,
                ),
            r.phase == (if r.descriptions@.len() == 0 {
                WizardPhase::Done
            } else {
                WizardPhase::Picking
            }),
    {
        let mut names: Vec<String> = Vec::new();
        let mut i: usize = 0;
        while i < batch.len()
            invariant
                i <= batch@.len(),
                names@.len() == unique_uncategorized(batch@, i as nat).len(),
                forall|k: int| 0 <= k < names@.len() ==> #[trigger] names@[k]@ == unique_uncategorized(batch@, i as nat)[k],
            decreases batch@.len() - i,
        {
            let t = &batch[i];
            let ghost prev = unique_uncategorized(batch@, i as nat);
            if t.category_id.is_none() {
                let known = listed(&names, &t.original_description);
                proof {
                    if prev.contains(t.original_description@) {
                        let k = choose|k: int| 0 <= k < prev.len() && prev[k] == t.original_description@;
                        assert(names@[k]@ == t.original_description@);
                    }
                    if known {
                        let k = choose|k: int| 0 <= k < names@.len() && #[trigger] names@[k]@ == t.original_description@;
                        assert(prev[k] == t.original_description@);
                    }
                }
                if !known {
                    names.push(t.original_description.clone());
                }
            }
            i = i + 1;
        }
        let ghost u = unique_uncategorized(batch@, batch@.len() as nat);
        let mut descriptions: Vec<(String, usize)> = Vec::new();
        let mut j: usize = 0;
        while j < names.len()
            invariant
                j <= names@.len(),
                names@.len() == u.len(),
                forall|k: int| 0 <= k < names@.len() ==> #[trigger] names@[k]@ == u[k],
                descriptions@.len() == j,
                forall|k: int|
                    0 <= k < j ==> (#[trigger] descriptions@[k]).0@ == u[k] && descriptions@[k].1
                        == count_uncategorized(batch@, u[k], batch@.len() as nat),
            decreases names@.len() - j,
        {
            let c = count_for(batch, &names[j]);
            descriptions.push((names[j].clone(), c));
            j = j + 1;
        }
        let phase = if descriptions.len() == 0 {
            WizardPhase::Done
        } else {
            WizardPhase::Picking
        };
        let r = WizardState { descriptions, index: 0, phase, skipped: Vec::new() };
        assert forall|t: int| 0 <= t < batch@.len() implies (#[trigger] batch@[t]).category_id is Some
            || r.is_pending(batch@[t].original_description@) || r.is_skipped(batch@[t].original_description@) by {
            if batch@[t].category_id is None {
                lemma_unique_contains(batch@, batch@.len() as nat, t);
                let k = choose|k: int| 0 <= k < u.len() && u[k] == batch@[t].original_description@;
                assert(r.desc(k) == batch@[t].original_description@);
            }
        }
        r
    }
}

} // verus!

verus! {

/// `e` asks to store the rule suggested for description `d`, for category `id`.
pub open spec fn is_rule_effect(e: WizardEffect, d: Seq<char>, id: i64) -> bool {
    match e {
        WizardEffect::PersistRule(rule) => {
            &&& rule.id.is_none()
            &&& rule.pattern@ == lower_of(suggest_core(upper_of(d), d))
            &&& rule.category_id == id
            &&& !rule.is_regex
            &&& rule.priority == 0
        },
        _ => false,
    }
}

/// Submitting a name while creating asks to store a category under the trimmed
/// name, unless that is blank.
pub open spec fn submitted_name_ok(phase: WizardPhase, e: WizardEvent, effects: Seq<WizardEffect>) -> bool {
    match e {
        WizardEvent::SubmitName(name) => phase is Creating ==> if trim(name@).len() > 0 {
            effects.len() == 1 && match effects[0] {
                WizardEffect::PersistCategory(n) => n@ == trim(name@),
                _ => false,
            }
        } else {
            effects.len() == 0
        },
        _ => true,
    }
}

impl WizardState {
    /// Move on after the current description; the last one leads to commit.
    fn advance(&mut self, effects: &mut Vec<WizardEffect>)
        requires
            old(self).index < old(self).descriptions@.len(),
        ensures
            final(self).index == old(self).index + 1,
            final(self).descriptions == old(self).descriptions,
            final(self).skipped == old(self).skipped,
            final(self).phase == (if final(self).index == final(self).descriptions@.len() {
                WizardPhase::Done
            } else {
                WizardPhase::Picking
            }),
            final(effects)@ == (if final(self).index == final(self).descriptions@.len() {
                old(effects)@.push(WizardEffect::Commit)
            } else {
                old(effects)@
            }),
    {
        let n = self.descriptions.len();
        self.index = self.index + 1;
        if self.index == n {
            self.phase = WizardPhase::Done;
            effects.push(WizardEffect::Commit);
        } else {
            self.phase = WizardPhase::Picking;
        }
    }

    /// Handle one operator event: update the wizard and the batch, and return what
    /// the caller must store or commit.
    pub fn step(&mut self, batch: &mut Vec<Transaction>, event: WizardEvent) -> (effects: Vec<WizardEffect>)
        requires
            old(self).wf(),
        ensures
            final(self).wf(),
            old(self).covers(old(batch)@) ==> final(self).covers(final(batch)@),
            final(self).descriptions@ == old(self).descriptions@,
            final(batch)@ == (match assigned_by(old(self).phase, event) {
                Some(id) => applied(old(batch)@, old(self).desc(old(self).index as int), id),
                None => old(batch)@,
            }),
            advances(old(self).phase, event) ==> final(self).index == old(self).index + 1
                && final(self).phase == (if final(self).index == final(self).descriptions@.len() {
                WizardPhase::Done
            } else {
                WizardPhase::Picking
            }),
            assigned_by(old(self).phase, event) matches Some(id) ==> effects@.len() >= 1
                && is_rule_effect(effects@[0], old(self).desc(old(self).index as int), id),
            old(self).phase is Picking && event is SkipOne ==> final(self).skipped@.len()
                == old(self).skipped@.len() + 1 && final(self).skipped@.last()@ == old(self).desc(
                old(self).index as int,
            ),
            old(self).phase is Picking && event is SkipAll ==> final(self).index
                == final(self).descriptions@.len() && final(self).phase is Done,
            old(self).phase is Picking && event is StartCreating ==> final(self).phase is Creating
                && final(self).index == old(self).index,
            old(self).phase is Creating && event is CancelCreating ==> final(self).phase is Picking
                && final(self).index == old(self).index,
            (old(self).phase is Picking || old(self).phase is Creating) && event is Abandon
                ==> final(self).phase is Abandoned,
            (final(self).phase is Done && !(old(self).phase is Done)) == (effects@.len() > 0
                && effects@.last() is Commit),
            submitted_name_ok(old(self).phase, event, effects@),
            !(old(self).phase is Creating && event is SubmitName) ==> effects@.len() == (if assigned_by(
                old(self).phase,
                event,
            ) is Some {
                1int
            } else {
                0int
            }) + (if final(self).phase is Done && !(old(self).phase is Done) {
                1int
            } else {
                0int
            }),
            !advances(old(self).phase, event) && !(old(self).phase is Picking && event is SkipAll)
                ==> final(self).index == old(self).index && final(self).skipped == old(self).skipped,
    {
        let mut effects: Vec<WizardEffect> = Vec::new();
        let ghost old_self = *self;
        let ghost old_batch = batch@;
        let phase = self.phase;
        match event {
            WizardEvent::Assign(id) => {
                if phase == WizardPhase::Picking {
                    self.assign_current(batch, id, &mut effects);
                }
            },
            WizardEvent::CategoryCreated(id) => {
                if phase == WizardPhase::Creating {
                    self.assign_current(batch, id, &mut effects);
                }
            },
            WizardEvent::StartCreating => {
                if phase == WizardPhase::Picking {
                    self.phase = WizardPhase::Creating;
                }
            },
            WizardEvent::CancelCreating => {
                if phase == WizardPhase::Creating {
                    self.phase = WizardPhase::Picking;
                }
            },
            WizardEvent::SubmitName(name) => {
                if phase == WizardPhase::Creating {
                    let t = trim_str(name.as_str());
                    if chars_of(t.as_str()).len() > 0 {
                        effects.push(WizardEffect::PersistCategory(t));
                    }
                }
            },
            WizardEvent::SkipOne => {
                if phase == WizardPhase::Picking {
                    let d = self.descriptions[self.index].0.clone();
                    let ghost before = *self;
                    self.skipped.push(d);
                    self.advance(&mut effects);
                    proof {
                        if before.covers(old_batch) {
                            self.lemma_skip_one_covers(before, old_batch);
                        }
                    }
                }
            },
            WizardEvent::SkipAll => {
                if phase == WizardPhase::Picking {
                    self.skip_all();
                    effects.push(WizardEffect::Commit);
                }
            },
            WizardEvent::Abandon => {
                if phase == WizardPhase::Picking || phase == WizardPhase::Creating {
                    self.phase = WizardPhase::Abandoned;
                }
            },
        }
        proof {
            if self.index == old_self.index && self.skipped == old_self.skipped && self.descriptions
                == old_self.descriptions && batch@ == old_batch {
                lemma_covers_same(old_self, *self, old_batch);
            }
        }
        effects
    }

    proof fn lemma_skip_one_covers(&self, before: WizardState, batch: Seq<Transaction>)
        requires
            before.index < before.descriptions@.len(),
            self.descriptions == before.descriptions,
            self.index == before.index + 1,
            self.skipped@.len() == before.skipped@.len() + 1,
            forall|k: int| 0 <= k < before.skipped@.len() ==> #[trigger] self.skipped@[k] == before.skipped@[k],
            self.skipped@.last()@ == before.desc(before.index as int),
            before.covers(batch),
        ensures
            self.covers(batch),
    {
        assert forall|t: int| 0 <= t < batch.len() implies (#[trigger] batch[t]).category_id is Some
            || self.is_pending(batch[t].original_description@) || self.is_skipped(batch[t].original_description@) by {
            let d = batch[t].original_description@;
            if batch[t].category_id is None {
                if before.is_skipped(d) {
                    let k = choose|k: int| 0 <= k < before.skipped@.len() && #[trigger] before.skipped@[k]@ == d;
                    assert(self.skipped@[k]@ == d);
                } else {
                    let j = choose|j: int| before.index <= j < before.descriptions@.len() && #[trigger] before.desc(j) == d;
                    if j == before.index {
                        assert(self.skipped@[self.skipped@.len() - 1]@ == d);
                    } else {
                        assert(self.desc(j) == d);
                    }
                }
            }
        }
    }

    /// Give the current description category `id`, suggest a rule for it, and move on.
    fn assign_current(&mut self, batch: &mut Vec<Transaction>, id: i64, effects: &mut Vec<WizardEffect>)
        requires
            old(self).wf(),
            old(self).phase is Picking || old(self).phase is Creating,
            old(effects)@.len() == 0,
        ensures
            final(self).wf(),
            old(self).covers(old(batch)@) ==> final(self).covers(final(batch)@),
            final(self).descriptions == old(self).descriptions,
            final(self).skipped == old(self).skipped,
            final(batch)@ == applied(old(batch)@, old(self).desc(old(self).index as int), id),
            final(self).index == old(self).index + 1,
            final(self).phase == (if final(self).index == final(self).descriptions@.len() {
                WizardPhase::Done
            } else {
                WizardPhase::Picking
            }),
            final(effects)@.len() == 1 + (if final(self).phase is Done {
                1int
            } else {
                0int
            }),
            is_rule_effect(final(effects)@[0], old(self).desc(old(self).index as int), id),
            (final(self).phase is Done) == (final(effects)@.last() is Commit),
    {
        let ghost before = *self;
        let ghost old_batch = batch@;
        let d = self.descriptions[self.index].0.clone();
        apply_category(batch, &d, id);
        let pattern = suggest_rule(d.as_str());
        effects.push(WizardEffect::PersistRule(ImportRule::new_contains(pattern, id)));
        self.advance(effects);
        proof {
            if before.covers(old_batch) {
                let nb = batch@;
                assert forall|t: int| 0 <= t < nb.len() implies (#[trigger] nb[t]).category_id is Some
                    || self.is_pending(nb[t].original_description@) || self.is_skipped(nb[t].original_description@) by {
                    let dt = old_batch[t].original_description@;
                    assert(nb[t] == applied(old_batch, d@, id)[t]);
                    if nb[t].category_id is None {
                        assert(old_batch[t].category_id is None);
                        assert(nb[t].original_description@ == dt);
                        if !before.is_skipped(dt) {
                            let j = choose|j: int| before.index <= j < before.descriptions@.len() && #[trigger] before.desc(j) == dt;
                            if j == before.index {
                                assert(dt == d@);
                            } else {
                                assert(self.desc(j) == dt);
                            }
                        }
                    }
                }
            }
        }
    }

    /// Leave every remaining description uncategorised and finish.
    fn skip_all(&mut self)
        requires
            old(self).wf(),
        ensures
            final(self).wf(),
            final(self).descriptions == old(self).descriptions,
            final(self).index == final(self).descriptions@.len(),
            final(self).phase is Done,
            forall|b: Seq<Transaction>| old(self).covers(b) ==> #[trigger] final(self).covers(b),
    {
        let ghost before = *self;
        let mut j = self.index;
        while j < self.descriptions.len()
            invariant
                before.index <= j <= self.descriptions@.len(),
                self.descriptions == before.descriptions,
                self.index == before.index,
                self.phase == before.phase,
                self.skipped@.len() == before.skipped@.len() + (j - before.index),
                forall|k: int| 0 <= k < before.skipped@.len() ==> #[trigger] self.skipped@[k] == before.skipped@[k],
                forall|m: int| before.index <= m < j ==> #[trigger] self.skipped@[before.skipped@.len() + (m - before.index)]@ == before.desc(m),
            decreases self.descriptions@.len() - j,
        {
            let d = self.descriptions[j].0.clone();
            self.skipped.push(d);
            j = j + 1;
        }
        let ghost mid = *self;
        self.index = self.descriptions.len();
        self.phase = WizardPhase::Done;
        assert forall|b: Seq<Transaction>| before.covers(b) implies #[trigger] self.covers(b) by {
            assert forall|t: int| 0 <= t < b.len() implies (#[trigger] b[t]).category_id is Some
                || self.is_pending(b[t].original_description@) || self.is_skipped(b[t].original_description@) by {
                let dt = b[t].original_description@;
                if b[t].category_id is None {
                    if before.is_skipped(dt) {
                        let k = choose|k: int| 0 <= k < before.skipped@.len() && #[trigger] before.skipped@[k]@ == dt;
                        assert(self.skipped@[k]@ == dt);
                    } else {
                        let m = choose|m: int| before.index <= m < before.descriptions@.len() && #[trigger] before.desc(m) == dt;
                        assert(self.skipped@[before.skipped@.len() + (m - before.index)]@ == dt);
                    }
                }
            }
        }
    }
}

proof fn lemma_covers_same(a: WizardState, b: WizardState, batch: Seq<Transaction>)
    requires
        a.descriptions == b.descriptions,
        a.index == b.index,
        a.skipped == b.skipped,
    ensures
        a.covers(batch) == b.covers(batch),
{
    assert forall|d: Seq<char>| a.is_pending(d) == b.is_pending(d) && a.is_skipped(d) == b.is_skipped(d) by {
        if a.is_pending(d) {
            let j = choose|j: int| a.index <= j < a.descriptions@.len() && #[trigger] a.desc(j) == d;
            assert(b.desc(j) == d);
        }
        if b.is_pending(d) {
            let j = choose|j: int| b.index <= j < b.descriptions@.len() && #[trigger] b.desc(j) == d;
            assert(a.desc(j) == d);
        }
    }
}

/// Once the wizard is done, every transaction of the batch has a category or
/// carries a description that the operator skipped.
pub proof fn lemma_done_covers(s: WizardState, batch: Seq<Transaction>)
    requires
        s.wf(),
        s.phase is Done,
        s.covers(batch),
    ensures
        forall|t: int|
            0 <= t < batch.len() ==> (#[trigger] batch[t]).category_id is Some || s.is_skipped(
                batch[t].original_description@,
            ),
{
}

} // verus!
