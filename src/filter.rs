//! The stream filter driver: per line it decodes, tracks the current time,
//! decides, and collects the distinct categories and senders.
use vstd::prelude::*;

use crate::gate::FilterRules;
use crate::record::{
    category_of, data_of, decodes, is_valid_line, sender_of, time_in_field, Record,
};
use crate::text::texts;
use crate::time::{time_field_index, time_field_of, TimeOfDay};
use crate::uniques::{report_text, Uniques};

verus! {

/// The current time after a record: the time in its category's time field
/// when the record is valid and that field reads as a time, else `now`.
pub open spec fn time_after_record(
    now: TimeOfDay,
    valid: bool,
    category: Seq<char>,
    data: Seq<char>,
) -> TimeOfDay {
    if valid && time_field_of(category) is Some && time_in_field(
        data,
        time_field_of(category)->0,
    ) is Some {
        time_in_field(data, time_field_of(category)->0)->0
    } else {
        now
    }
}

/// The current time after the line.
pub open spec fn next_time(now: TimeOfDay, line: Seq<char>) -> TimeOfDay {
    time_after_record(now, is_valid_line(line), category_of(line), data_of(line))
}

/// The current time after a sequence of lines, starting from `now`.
pub open spec fn time_after(now: TimeOfDay, lines: Seq<Seq<char>>) -> TimeOfDay
    decreases lines.len(),
{
    if lines.len() == 0 {
        now
    } else {
        next_time(time_after(now, lines.drop_last()), lines.last())
    }
}

/// Whether the line is emitted when the current time before it is `now`.
pub open spec fn line_passes(rules: FilterRules, now: TimeOfDay, line: Seq<char>) -> bool {
    rules.admits(is_valid_line(line), next_time(now, line), category_of(line), sender_of(line))
}

/// The lines that pass, in input order, for a source read from time `now`.
pub open spec fn passed(rules: FilterRules, now: TimeOfDay, lines: Seq<Seq<char>>) -> Seq<
    Seq<char>,
>
    decreases lines.len(),
{
    if lines.len() == 0 {
        Seq::empty()
    } else {
        let prev = passed(rules, now, lines.drop_last());
        if line_passes(rules, time_after(now, lines.drop_last()), lines.last()) {
            prev.push(lines.last())
        } else {
            prev
        }
    }
}

/// The non-empty categories of the lines.
pub open spec fn seen_categories(lines: Seq<Seq<char>>) -> Set<Seq<char>> {
    Set::new(
        |c: Seq<char>|
            c.len() > 0 && exists|i: int| 0 <= i < lines.len() && category_of(#[trigger] lines[i]) == c,
    )
}

/// The non-empty senders of the lines.
pub open spec fn seen_senders(lines: Seq<Seq<char>>) -> Set<Seq<char>> {
    Set::new(
        |c: Seq<char>|
            c.len() > 0 && exists|i: int| 0 <= i < lines.len() && sender_of(#[trigger] lines[i]) == c,
    )
}

/// The verdict on a line when every time passes the time gate.
pub open spec fn passes_untimed(rules: FilterRules, line: Seq<char>) -> bool {
    is_valid_line(line) && rules.category_passes(category_of(line)) && rules.sender_passes(
        sender_of(line),
    )
}

/// The lines that pass the gates other than the time gate, in order.
pub open spec fn kept(rules: FilterRules, lines: Seq<Seq<char>>) -> Seq<Seq<char>>
    decreases lines.len(),
{
    if lines.len() == 0 {
        Seq::empty()
    } else {
        let prev = kept(rules, lines.drop_last());
        if passes_untimed(rules, lines.last()) {
            prev.push(lines.last())
        } else {
            prev
        }
    }
}

/// A line whose category holds no time leaves the current time as it was.
pub proof fn lemma_untimed_category_keeps_time(now: TimeOfDay, line: Seq<char>)
    requires
        time_field_of(category_of(line)) is None,
    ensures
        next_time(now, line) == now,
{
}

/// The current time stays a valid time of day.
pub proof fn lemma_time_after_wf(now: TimeOfDay, lines: Seq<Seq<char>>)
    requires
        now.wf(),
    ensures
        time_after(now, lines).wf(),
    decreases lines.len(),
{
    if lines.len() > 0 {
        lemma_time_after_wf(now, lines.drop_last());
    }
}

/// With a window that admits every time, the lines that pass do not depend
/// on the time.
pub proof fn lemma_passed_without_time(rules: FilterRules, now: TimeOfDay, lines: Seq<Seq<char>>)
    requires
        rules.window.admits_every_time(),
        now.wf(),
    ensures
        passed(rules, now, lines) == kept(rules, lines),
    decreases lines.len(),
{
    if lines.len() > 0 {
        lemma_passed_without_time(rules, now, lines.drop_last());
        let t = time_after(now, lines.drop_last());
        lemma_time_after_wf(now, lines.drop_last());
        assert(rules.window.contains(next_time(t, lines.last())));
    }
}

/// Keeping the kept lines keeps them all.
pub proof fn lemma_kept_idempotent(rules: FilterRules, lines: Seq<Seq<char>>)
    ensures
        kept(rules, kept(rules, lines)) == kept(rules, lines),
        forall|i: int| 0 <= i < kept(rules, lines).len() ==> passes_untimed(rules, #[trigger] kept(rules, lines)[i]),
    decreases lines.len(),
{
    if lines.len() > 0 {
        lemma_kept_idempotent(rules, lines.drop_last());
        let prev = kept(rules, lines.drop_last());
        if passes_untimed(rules, lines.last()) {
            assert(prev.push(lines.last()).drop_last() =~= prev);
        }
    }
}

/// Filtering the output of a filter again, with the same rules and a window
/// that admits every time, gives that output back unchanged.
pub proof fn lemma_filter_idempotent(
    rules: FilterRules,
    first_start: TimeOfDay,
    second_start: TimeOfDay,
    lines: Seq<Seq<char>>,
)
    requires
        rules.window.admits_every_time(),
        first_start.wf(),
        second_start.wf(),
    ensures
        passed(rules, second_start, passed(rules, first_start, lines)) == passed(
            rules,
            first_start,
            lines,
        ),
{
    lemma_passed_without_time(rules, first_start, lines);
    lemma_passed_without_time(rules, second_start, kept(rules, lines));
    lemma_kept_idempotent(rules, lines);
}

/// Inputs that hold the same lines, in any order, show the same distinct
/// categories and senders, and so give the same sorted reports.
pub proof fn lemma_report_order_independent(a: Seq<Seq<char>>, b: Seq<Seq<char>>)
    requires
        a.to_multiset() == b.to_multiset(),
    ensures
        seen_categories(a) == seen_categories(b),
        seen_senders(a) == seen_senders(b),
        report_text(seen_categories(a)) == report_text(seen_categories(b)),
        report_text(seen_senders(a)) == report_text(seen_senders(b)),
{
    broadcast use vstd::seq_lib::group_to_multiset_ensures;
    assert forall|x: Seq<char>| a.contains(x) <==> b.contains(x) by {
        assert(a.contains(x) <==> a.to_multiset().count(x) > 0);
        assert(b.contains(x) <==> b.to_multiset().count(x) > 0);
    }
    assert forall|c: Seq<char>| seen_categories(a).contains(c) <==> seen_categories(b).contains(c) by {
        if seen_categories(a).contains(c) {
            let i = choose|i: int| 0 <= i < a.len() && category_of(#[trigger] a[i]) == c;
            assert(a.contains(a[i]));
            let j = choose|j: int| 0 <= j < b.len() && b[j] == a[i];
            assert(category_of(b[j]) == c);
        }
        if seen_categories(b).contains(c) {
            let i = choose|i: int| 0 <= i < b.len() && category_of(#[trigger] b[i]) == c;
            assert(b.contains(b[i]));
            let j = choose|j: int| 0 <= j < a.len() && a[j] == b[i];
            assert(category_of(a[j]) == c);
        }
    }
    assert forall|c: Seq<char>| seen_senders(a).contains(c) <==> seen_senders(b).contains(c) by {
        if seen_senders(a).contains(c) {
            let i = choose|i: int| 0 <= i < a.len() && sender_of(#[trigger] a[i]) == c;
            assert(a.contains(a[i]));
            let j = choose|j: int| 0 <= j < b.len() && b[j] == a[i];
            assert(sender_of(b[j]) == c);
        }
        if seen_senders(b).contains(c) {
            let i = choose|i: int| 0 <= i < b.len() && sender_of(#[trigger] b[i]) == c;
            assert(b.contains(b[i]));
            let j = choose|j: int| 0 <= j < a.len() && a[j] == b[i];
            assert(sender_of(a[j]) == c);
        }
    }
    assert(seen_categories(a) =~= seen_categories(b));
    assert(seen_senders(a) =~= seen_senders(b));
}

/// Moves `now` on past a record.
pub fn track_time(now: &mut TimeOfDay, record: &Record)
    requires
        old(now).wf(),
    ensures
        *final(now) == time_after_record(*old(now), record.valid, record.category@, record.data@),
        final(now).wf(),
{
    if record.valid {
        if let Some(index) = time_field_index(record.category.as_str()) {
            if let Some(t) = record.time_at(index) {
                *now = t;
            }
        }
    }
}

/// The state of one run: its rules, what it reports, the current time of
/// the source being read and the distinct values seen so far.
pub struct StreamFilter {
    pub rules: FilterRules,
    pub report_categories: bool,
    pub report_senders: bool,
    pub now: TimeOfDay,
    pub uniques: Uniques,
}

impl StreamFilter {
    pub open spec fn wf(&self) -> bool {
        self.now.wf() && self.uniques.wf()
    }

    /// Only the uniqueness report is printed, no record.
    pub open spec fn report_only(&self) -> bool {
        self.report_categories || self.report_senders
    }

    /// A run that has read nothing yet.
    pub fn new(rules: FilterRules, report_categories: bool, report_senders: bool) -> (r:
        StreamFilter)
        ensures
            r.wf(),
            r.rules == rules,
            r.report_categories == report_categories,
            r.report_senders == report_senders,
            r.now == (TimeOfDay { secs: 0, frac: 0 }),
            r.uniques.categories() == Set::<Seq<char>>::empty(),
            r.uniques.senders() == Set::<Seq<char>>::empty(),
    {
        StreamFilter {
            rules,
            report_categories,
            report_senders,
            now: TimeOfDay::midnight(),
            uniques: Uniques::new(),
        }
    }

    /// Starts a new source: the current time goes back to midnight, while the
    /// distinct values seen are kept for the whole run.
    pub fn begin_source(&mut self)
        requires
            old(self).wf(),
        ensures
            final(self).wf(),
            final(self).now == (TimeOfDay { secs: 0, frac: 0 }),
            final(self).rules == old(self).rules,
            final(self).report_categories == old(self).report_categories,
            final(self).report_senders == old(self).report_senders,
            final(self).uniques == old(self).uniques,
    {
        self.now = TimeOfDay::midnight();
    }

    /// Takes one line; returns whether it is to be written out verbatim.
    pub fn process_line(&mut self, line: &str) -> (r: bool)
        requires
            old(self).wf(),
        ensures
            final(self).wf(),
            final(self).now == next_time(old(self).now, line@),
            r == (!old(self).report_only() && line_passes(old(self).rules, old(self).now, line@)),
            final(self).uniques.categories() == old(self).uniques.categories().union(
                seen_categories(seq![line@]),
            ),
            final(self).uniques.senders() == old(self).uniques.senders().union(
                seen_senders(seq![line@]),
            ),
            final(self).rules == old(self).rules,
            final(self).report_categories == old(self).report_categories,
            final(self).report_senders == old(self).report_senders,
    {
        let record = Record::decode(line);
        track_time(&mut self.now, &record);
        let verdict = self.rules.should_emit(&record, &self.now);
        self.uniques.observe(record.category.as_str(), record.sender.as_str());
        proof {
            let one = seq![line@];
            assert(one[0] == line@);
            assert(seen_categories(one) =~= (if category_of(line@).len() > 0 {
                set![category_of(line@)]
            } else {
                Set::empty()
            }));
            assert(seen_senders(one) =~= (if sender_of(line@).len() > 0 {
                set![sender_of(line@)]
            } else {
                Set::empty()
            }));
            assert(final(self).uniques.categories() =~= old(self).uniques.categories().union(
                seen_categories(one),
            ));
            assert(final(self).uniques.senders() =~= old(self).uniques.senders().union(
                seen_senders(one),
            ));
        }
        verdict && !self.report_categories && !self.report_senders
    }

    /// Takes the lines of one source in order; returns those to be written out.
    pub fn filter_lines(&mut self, lines: &Vec<String>) -> (r: Vec<String>)
        requires
            old(self).wf(),
        ensures
            final(self).wf(),
            texts(r@) == (if old(self).report_only() {
                Seq::empty()
            } else {
                passed(old(self).rules, old(self).now, texts(lines@))
            }),
            final(self).now == time_after(old(self).now, texts(lines@)),
            final(self).uniques.categories() == old(self).uniques.categories().union(
                seen_categories(texts(lines@)),
            ),
            final(self).uniques.senders() == old(self).uniques.senders().union(
                seen_senders(texts(lines@)),
            ),
            final(self).rules == old(self).rules,
            final(self).report_categories == old(self).report_categories,
            final(self).report_senders == old(self).report_senders,
    {
        let mut out: Vec<String> = Vec::new();
        let mut i: usize = 0;
        let ghost start = self.now;
        let ghost cats0 = self.uniques.categories();
        let ghost snds0 = self.uniques.senders();
        assert(texts(lines@).take(0) =~= Seq::<Seq<char>>::empty());
        assert(seen_categories(Seq::empty()) =~= Set::<Seq<char>>::empty());
        assert(seen_senders(Seq::empty()) =~= Set::<Seq<char>>::empty());
        assert(cats0.union(Set::empty()) =~= cats0);
        assert(snds0.union(Set::empty()) =~= snds0);
        assert(texts(out@) =~= Seq::<Seq<char>>::empty());
        while i < lines.len()
            invariant
                self.wf(),
                i <= lines@.len(),
                self.rules == old(self).rules,
                self.report_categories == old(self).report_categories,
                self.report_senders == old(self).report_senders,
                start == old(self).now,
                cats0 == old(self).uniques.categories(),
                snds0 == old(self).uniques.senders(),
                self.now == time_after(start, texts(lines@).take(i as int)),
                texts(out@) == (if self.report_only() {
                    Seq::empty()
                } else {
                    passed(self.rules, start, texts(lines@).take(i as int))
                }),
                self.uniques.categories() == cats0.union(
                    seen_categories(texts(lines@).take(i as int)),
                ),
                self.uniques.senders() == snds0.union(seen_senders(texts(lines@).take(i as int))),
            decreases lines@.len() - i,
        {
            let ghost pre = texts(lines@).take(i as int);
            let ghost next = texts(lines@).take(i + 1);
            assert(next.drop_last() =~= pre);
            assert(next.last() == lines@[i as int]@);
            let emit = self.process_line(lines[i].as_str());
            if emit {
                out.push(lines[i].clone());
            }
            proof {
                let one = seq![lines@[i as int]@];
                assert(texts(out@) =~= (if self.report_only() {
                    Seq::empty()
                } else {
                    passed(self.rules, start, next)
                }));
                assert(seen_categories(next) =~= seen_categories(pre).union(seen_categories(one)))
                    by {
                    assert forall|c: Seq<char>| #[trigger]
                        seen_categories(next).contains(c) implies seen_categories(pre).union(
                        seen_categories(one),
                    ).contains(c) by {
                        let k = choose|k: int| 0 <= k < next.len() && category_of(next[k]) == c;
                        if k < i {
                            assert(pre[k] == next[k]);
                        } else {
                            assert(one[0] == next[k]);
                        }
                    }
                    assert forall|c: Seq<char>| #[trigger]
                        seen_categories(pre).union(seen_categories(one)).contains(c)
                        implies seen_categories(next).contains(c) by {
                        if seen_categories(pre).contains(c) {
                            let k = choose|k: int| 0 <= k < pre.len() && category_of(pre[k]) == c;
                            assert(next[k] == pre[k]);
                        } else {
                            assert(one[0] == next[i as int]);
                        }
                    }
                }
                assert(seen_senders(next) =~= seen_senders(pre).union(seen_senders(one))) by {
                    assert forall|c: Seq<char>| #[trigger]
                        seen_senders(next).contains(c) implies seen_senders(pre).union(
                        seen_senders(one),
                    ).contains(c) by {
                        let k = choose|k: int| 0 <= k < next.len() && sender_of(next[k]) == c;
                        if k < i {
                            assert(pre[k] == next[k]);
                        } else {
                            assert(one[0] == next[k]);
                        }
                    }
                    assert forall|c: Seq<char>| #[trigger]
                        seen_senders(pre).union(seen_senders(one)).contains(c)
                        implies seen_senders(next).contains(c) by {
                        if seen_senders(pre).contains(c) {
                            let k = choose|k: int| 0 <= k < pre.len() && sender_of(pre[k]) == c;
                            assert(next[k] == pre[k]);
                        } else {
                            assert(one[0] == next[i as int]);
                        }
                    }
                }
                assert(self.uniques.categories() =~= cats0.union(seen_categories(next)));
                assert(self.uniques.senders() =~= snds0.union(seen_senders(next)));
            }
            i = i + 1;
        }
        assert(texts(lines@).take(lines@.len() as int) =~= texts(lines@));
        out
    }

    /// The report lines, when asked for: the sorted distinct senders, then the
    /// sorted distinct categories.
    pub fn report_lines(&self) -> (r: Vec<String>)
        requires
            self.wf(),
        ensures
            texts(r@) == (if self.report_senders {
                seq![report_text(self.uniques.senders())]
            } else {
                Seq::empty()
            }) + (if self.report_categories {
                seq![report_text(self.uniques.categories())]
            } else {
                Seq::empty()
            }),
    {
        let mut r: Vec<String> = Vec::new();
        if self.report_senders {
            r.push(self.uniques.senders_report());
        }
        if self.report_categories {
            r.push(self.uniques.categories_report());
        }
        assert(texts(r@) =~= (if self.report_senders {
            seq![report_text(self.uniques.senders())]
        } else {
            Seq::empty()
        }) + (if self.report_categories {
            seq![report_text(self.uniques.categories())]
        } else {
            Seq::empty()
        }));
        r
    }
}

} // verus!
