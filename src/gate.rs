//! The inclusion engine: filter rules and the gates a record must pass.
use vstd::prelude::*;

use crate::record::Record;
use crate::text::same_text;
use crate::time::{TimeOfDay, TimeWindow};

verus! {

/// Whether `x` is among the strings of `list`.
pub open spec fn listed(list: Seq<String>, x: Seq<char>) -> bool {
    exists|i: int| 0 <= i < list.len() && #[trigger] list[i]@ == x
}

/// The shared shape of the category and sender gates: the value passes
/// when an allow list is set and holds it, or a deny list is set and
/// lacks it, or neither list is set.
pub open spec fn gate_passes(
    allow: Option<Vec<String>>,
    deny: Option<Vec<String>>,
    x: Seq<char>,
) -> bool {
    (allow is Some && listed(allow->0@, x)) || (deny is Some && !listed(deny->0@, x)) || (
    allow is None && deny is None)
}

/// Whether `x` is among the strings of `list`.
pub fn is_listed(list: &Vec<String>, x: &str) -> (r: bool)
    ensures
        r == listed(list@, x@),
{
    let mut i: usize = 0;
    while i < list.len()
        invariant
            i <= list@.len(),
            forall|j: int| 0 <= j < i ==> list@[j]@ != x@,
        decreases list@.len() - i,
    {
        if same_text(list[i].as_str(), x) {
            return true;
        }
        i = i + 1;
    }
    false
}

/// The shared gate, over an allow list, a deny list and the value tested.
pub fn passes_gate(
    allow: &Option<Vec<String>>,
    deny: &Option<Vec<String>>,
    value: &str,
) -> (r: bool)
    ensures
        r == gate_passes(*allow, *deny, value@),
{
    if let Some(list) = allow {
        if is_listed(list, value) {
            return true;
        }
    }
    if let Some(list) = deny {
        if !is_listed(list, value) {
            return true;
        }
    }
    allow.is_none() && deny.is_none()
}

/// The rules of one run; they do not change while it lasts.
pub struct FilterRules {
    pub window: TimeWindow,
    pub include_categories: Option<Vec<String>>,
    pub exclude_categories: Option<Vec<String>>,
    pub include_senders: Option<Vec<String>>,
    pub exclude_senders: Option<Vec<String>>,
    /// Asks for every valid record; with no other rule set the gates
    /// already pass each of them, so it changes no decision.
    pub pass_all_valid: bool,
}

impl FilterRules {
    /// Rules that pass every valid record of the default window.
    pub fn new() -> (r: FilterRules)
        ensures
            r.window == TimeWindow::whole_day_spec(),
            r.include_categories is None,
            r.exclude_categories is None,
            r.include_senders is None,
            r.exclude_senders is None,
            !r.pass_all_valid,
    {
        FilterRules {
            window: TimeWindow::whole_day(),
            include_categories: None,
            exclude_categories: None,
            include_senders: None,
            exclude_senders: None,
            pass_all_valid: false,
        }
    }

    pub open spec fn category_passes(&self, category: Seq<char>) -> bool {
        gate_passes(self.include_categories, self.exclude_categories, category)
    }

    pub open spec fn sender_passes(&self, sender: Seq<char>) -> bool {
        gate_passes(self.include_senders, self.exclude_senders, sender)
    }

    /// The verdict on a record: valid, inside the window at `now`, and
    /// through both the category and the sender gate.
    pub open spec fn admits(
        &self,
        valid: bool,
        now: TimeOfDay,
        category: Seq<char>,
        sender: Seq<char>,
    ) -> bool {
        &&& valid
        &&& self.window.contains(now)
        &&& self.category_passes(category)
        &&& self.sender_passes(sender)
    }

    /// With neither `include_categories` nor `exclude_categories` set, every
    /// category passes the category gate.
    pub proof fn lemma_category_default_pass(&self, category: Seq<char>)
        requires
            self.include_categories is None,
            self.exclude_categories is None,
        ensures
            self.category_passes(category),
    {
    }

    /// With `include_categories` set, the category gate passes exactly the
    /// categories listed there, whatever `exclude_categories` holds, except
    /// for a category missing from both lists while `exclude_categories` is
    /// set: that list lets such a category through.
    pub proof fn lemma_category_include_precedence(&self, category: Seq<char>)
        requires
            self.include_categories is Some,
            self.exclude_categories is None || listed(self.exclude_categories->0@, category)
                || listed(self.include_categories->0@, category),
        ensures
            self.category_passes(category) == listed(self.include_categories->0@, category),
    {
    }

    /// Decides whether `record` is emitted at time `now`.
    pub fn should_emit(&self, record: &Record, now: &TimeOfDay) -> (r: bool)
        ensures
            r == self.admits(record.valid, *now, record.category@, record.sender@),
    {
        record.valid && self.window.admits(now) && passes_gate(
            &self.include_categories,
            &self.exclude_categories,
            record.category.as_str(),
        ) && passes_gate(&self.include_senders, &self.exclude_senders, record.sender.as_str())
    }
}

} // verus!
