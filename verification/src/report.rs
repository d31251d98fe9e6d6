//! The records of one batch, and the counts read from them.

use vstd::prelude::*;
use crate::result::{ScrapeResult, ScrapeResultView};

verus! {

/// A list of records seen as a sequence of their views.
pub open spec fn results_view(v: Seq<ScrapeResult>) -> Seq<ScrapeResultView> {
    v.map_values(|r: ScrapeResult| r@)
}

/// How many of `records` carry no error.
pub open spec fn count_success(records: Seq<ScrapeResultView>) -> nat
    decreases records.len(),
{
    if records.len() == 0 {
        0
    } else {
        count_success(records.drop_last()) + if records.last().error is None {
            1nat
        } else {
            0nat
        }
    }
}

/// How many of `records` carry an error.
pub open spec fn count_failure(records: Seq<ScrapeResultView>) -> nat
    decreases records.len(),
{
    if records.len() == 0 {
        0
    } else {
        count_failure(records.drop_last()) + if records.last().error is Some {
            1nat
        } else {
            0nat
        }
    }
}

/// How many links the successful records of `records` carry together.
pub open spec fn sum_links(records: Seq<ScrapeResultView>) -> nat
    decreases records.len(),
{
    if records.len() == 0 {
        0
    } else {
        sum_links(records.drop_last()) + if records.last().error is None {
            records.last().links.len()
        } else {
            0nat
        }
    }
}

/// Every record is a success or a failure, never both.
pub proof fn lemma_counts_partition(records: Seq<ScrapeResultView>)
    ensures
        count_success(records) + count_failure(records) == records.len(),
    decreases records.len(),
{
    if records.len() > 0 {
        lemma_counts_partition(records.drop_last());
    }
}

/// Records that carry an error carry no links, so among well-formed records
/// the links of the successes are the links of all.
pub proof fn lemma_failures_carry_no_links(records: Seq<ScrapeResultView>)
    requires
        forall|i: int| 0 <= i < records.len() ==> (#[trigger] records[i]).wf(),
    ensures
        sum_links(records) == records.fold_left(0nat, |acc: nat, r: ScrapeResultView| acc + r.links.len()),
    decreases records.len(),
{
    if records.len() > 0 {
        let rest = records.drop_last();
        assert forall|i: int| 0 <= i < rest.len() implies (#[trigger] rest[i]).wf() by {
            assert(rest[i] == records[i]);
        }
        lemma_failures_carry_no_links(rest);
        assert(records.last() == records[records.len() - 1]);
    }
}

/// The records of one batch, one per URL asked for. Counts are computed from
/// the records when asked for, never stored.
#[derive(Debug)]
pub struct BatchReport {
    results: Vec<ScrapeResult>,
}

impl View for BatchReport {
    type V = Seq<ScrapeResultView>;

    closed spec fn view(&self) -> Seq<ScrapeResultView> {
        results_view(self.results@)
    }
}

impl BatchReport {
    /// A report of the given records, in the given order.
    pub fn from_results(results: Vec<ScrapeResult>) -> (r: BatchReport)
        ensures
            r@ == results_view(results@),
    {
        BatchReport { results }
    }

    /// The records, in order.
    pub fn results(&self) -> (r: &Vec<ScrapeResult>)
        ensures
            results_view(r@) == self@,
    {
        &self.results
    }

    /// Gives the records up, in order.
    pub fn into_results(self) -> (r: Vec<ScrapeResult>)
        ensures
            results_view(r@) == self@,
    {
        self.results
    }

    /// How many records there are.
    pub fn len(&self) -> (n: usize)
        ensures
            n == self@.len(),
    {
        self.results.len()
    }

    /// Whether there is no record at all.
    pub fn is_empty(&self) -> (e: bool)
        ensures
            e == (self@.len() == 0),
    {
        self.results.len() == 0
    }

    /// The record at `index`, if there is one.
    pub fn get(&self, index: usize) -> (r: Option<&ScrapeResult>)
        ensures
            r is Some <==> index < self@.len(),
            r is Some ==> r->0@ == self@[index as int],
    {
        if index < self.results.len() {
            Some(&self.results[index])
        } else {
            None
        }
    }

    /// How many URLs got a response.
    pub fn success_count(&self) -> (n: usize)
        ensures
            n == count_success(self@),
    {
        let ghost all = self@;
        let len: usize = self.results.len();
        let mut n: usize = 0;
        let mut i: usize = 0;
        assert(all.take(0) =~= Seq::<ScrapeResultView>::empty());
        while i < len
            invariant
                i <= len,
                len == self.results@.len(),
                all == results_view(self.results@),
                n == count_success(all.take(i as int)),
                n <= i,
            decreases len - i,
        {
            assert(all.take(i + 1).drop_last() =~= all.take(i as int));
            assert(all.take(i + 1).last() == self.results@[i as int]@);
            if self.results[i].is_success() {
                n += 1;
            }
            i += 1;
        }
        assert(all.take(len as int) =~= all);
        n
    }

    /// How many URLs got no response.
    pub fn failure_count(&self) -> (n: usize)
        ensures
            n == count_failure(self@),
    {
        let ghost all = self@;
        let len: usize = self.results.len();
        let mut n: usize = 0;
        let mut i: usize = 0;
        assert(all.take(0) =~= Seq::<ScrapeResultView>::empty());
        while i < len
            invariant
                i <= len,
                len == self.results@.len(),
                all == results_view(self.results@),
                n == count_failure(all.take(i as int)),
                n <= i,
            decreases len - i,
        {
            assert(all.take(i + 1).drop_last() =~= all.take(i as int));
            assert(all.take(i + 1).last() == self.results@[i as int]@);
            if !self.results[i].is_success() {
                n += 1;
            }
            i += 1;
        }
        assert(all.take(len as int) =~= all);
        n
    }

    /// How many links the successful records carry together.
    pub fn total_links(&self) -> (n: u128)
        ensures
            n == sum_links(self@),
    {
        let ghost all = self@;
        let len: usize = self.results.len();
        let mut n: u128 = 0;
        let mut i: usize = 0;
        assert(all.take(0) =~= Seq::<ScrapeResultView>::empty());
        while i < len
            invariant
                i <= len,
                len == self.results@.len(),
                all == results_view(self.results@),
                n == sum_links(all.take(i as int)),
                n <= i * 0xFFFF_FFFF_FFFF_FFFF,
            decreases len - i,
        {
            assert(all.take(i + 1).drop_last() =~= all.take(i as int));
            assert(all.take(i + 1).last() == self.results@[i as int]@);
            if self.results[i].is_success() {
                let k: usize = self.results[i].link_count();
                assert(n + k <= (i + 1) * 0xFFFF_FFFF_FFFF_FFFF) by (nonlinear_arith)
                    requires
                        n <= i * 0xFFFF_FFFF_FFFF_FFFF,
                        k <= 0xFFFF_FFFF_FFFF_FFFF,
                ;
                assert((i + 1) * 0xFFFF_FFFF_FFFF_FFFF <= 0xFFFF_FFFF_FFFF_FFFF * 0xFFFF_FFFF_FFFF_FFFF)
                    by (nonlinear_arith)
                    requires
                        i + 1 <= 0xFFFF_FFFF_FFFF_FFFF,
                ;
                n = n + k as u128;
            } else {
                assert(n <= (i + 1) * 0xFFFF_FFFF_FFFF_FFFF) by (nonlinear_arith)
                    requires
                        n <= i * 0xFFFF_FFFF_FFFF_FFFF,
                ;
            }
            i += 1;
        }
        assert(all.take(len as int) =~= all);
        n
    }
}

} // verus!
