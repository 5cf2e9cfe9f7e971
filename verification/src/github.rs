//! The open issues of the tracker, gathered page by page.

use vstd::prelude::*;
use vstd::std_specs::hash::group_hash_axioms;
use std::collections::HashSet;

verus! {

/// What has been gathered from the pages fetched so far.
#[derive(Debug)]
pub struct OpenIssuePages {
    pub issue_numbers: HashSet<u64>,
    /// How many pages were added; the count stays at its largest value once
    /// it is reached.
    pub page_count: u32,
}

impl OpenIssuePages {
    /// Nothing gathered yet.
    pub fn new() -> (pages: OpenIssuePages)
        ensures
            pages.issue_numbers@ == Set::<u64>::empty(),
            pages.page_count == 0,
    {
        OpenIssuePages { issue_numbers: HashSet::new(), page_count: 0 }
    }

    /// Adds the issue numbers of one more page.
    pub fn add_page(&mut self, numbers: &Vec<u64>)
        ensures
            final(self).issue_numbers@ == old(self).issue_numbers@.union(numbers@.to_set()),
            final(self).page_count == if old(self).page_count < u32::MAX {
                (old(self).page_count + 1) as u32
            } else {
                u32::MAX
            },
    {
        broadcast use group_hash_axioms;

        let ghost before = self.issue_numbers@;
        let mut i: usize = 0;
        proof {
            assert(before =~= before.union(numbers@.take(0).to_set()));
        }
        while i < numbers.len()
            invariant
                i <= numbers.len(),
                self.page_count == old(self).page_count,
                self.issue_numbers@ == before.union(numbers@.take(i as int).to_set()),
            decreases numbers.len() - i,
        {
            let ghost seen = numbers@.take(i as int);
            let number = numbers[i];
            self.issue_numbers.insert(number);
            proof {
                let next = numbers@.take(i + 1);
                assert(next =~= seen.push(number));
                assert forall|n: u64| next.contains(n) <==> seen.contains(n) || n == number by {
                    if next.contains(n) {
                        let k = choose|k: int| 0 <= k < next.len() && next[k] == n;
                        if k < seen.len() {
                            assert(seen[k] == n);
                        }
                    }
                    if seen.contains(n) {
                        let k = choose|k: int| 0 <= k < seen.len() && seen[k] == n;
                        assert(next[k] == n);
                    }
                    if n == number {
                        assert(next[seen.len() as int] == n);
                    }
                }
                assert(self.issue_numbers@ =~= before.union(next.to_set()));
            }
            i = i + 1;
        }
        proof {
            assert(numbers@.take(numbers@.len() as int) =~= numbers@);
        }
        if self.page_count < u32::MAX {
            self.page_count = self.page_count + 1;
        }
    }
}

} // verus!
