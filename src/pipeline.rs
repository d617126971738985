//! The scan cycle's own state: paging through a listing, the tally of one
//! cycle, and building the policy from discovered addresses.

use vstd::prelude::*;
use crate::address::views;
use crate::address::holds;
use crate::policy::{calendar_date, with_address, RoutingConfig, Timestamp};

verus! {

/// The identifiers that one listing page carries; entries without one are skipped.
pub open spec fn page_ids(page: Seq<Option<String>>) -> Seq<Seq<char>>
    decreases page.len(),
{
    if page.len() == 0 {
        Seq::empty()
    } else {
        let rest = page_ids(page.drop_last());
        match page.last() {
            Some(id) => rest.push(id@),
            None => rest,
        }
    }
}

/// A paged listing in progress: the distinct identifiers gathered so far, in
/// page order, and the continuation token of the next page.
pub struct Listing {
    ids: Vec<String>,
    next_token: Option<String>,
    finished: bool,
}

impl Listing {
    /// No identifier is gathered twice.
    #[verifier::type_invariant]
    spec fn no_repeats(&self) -> bool {
        views(self.ids@).no_duplicates()
    }

    pub closed spec fn spec_ids(&self) -> Seq<Seq<char>> {
        views(self.ids@)
    }

    pub closed spec fn spec_token(&self) -> Option<String> {
        self.next_token
    }

    pub closed spec fn spec_finished(&self) -> bool {
        self.finished
    }

    /// A listing before its first page.
    pub fn new() -> (r: Listing)
        ensures
            r.spec_ids() == Seq::<Seq<char>>::empty(),
            r.spec_token() is None,
            !r.spec_finished(),
    {
        let r = Listing { ids: Vec::new(), next_token: None, finished: false };
        assert(views(r.ids@) =~= Seq::<Seq<char>>::empty());
        r
    }

    /// The token to request the next page with; `None` for the first page.
    pub fn page_token(&self) -> (r: &Option<String>)
        ensures
            *r == self.spec_token(),
    {
        &self.next_token
    }

    /// Whether the last page has been taken in.
    pub fn is_finished(&self) -> (r: bool)
        ensures
            r == self.spec_finished(),
    {
        self.finished
    }

    /// Takes in one page: its identifiers not gathered yet follow those gathered
    /// so far, and the listing is finished when the page carries no continuation
    /// token.
    pub fn absorb_page(&mut self, page: Vec<Option<String>>, next_page_token: Option<String>)
        requires
            !old(self).spec_finished(),
        ensures
            final(self).spec_ids().no_duplicates(),
            final(self).spec_ids().to_set() == old(self).spec_ids().to_set() + page_ids(
                page@,
            ).to_set(),
            final(self).spec_token() == next_page_token,
            final(self).spec_finished() == next_page_token is None,
    {
        proof {
            use_type_invariant(&*self);
        }
        let ghost start = views(self.ids@).to_set();
        let mut ids: Vec<String> = Vec::new();
        std::mem::swap(&mut ids, &mut self.ids);
        let mut page = page;
        let mut taken: Vec<Option<String>> = Vec::new();
        let ghost all = page@;
        // Drain the page front to back by moving its entries out in reverse.
        let n = page.len();
        let mut k: usize = 0;
        while k < n
            invariant
                k <= n == all.len(),
                page@ == all.take(n - k),
                taken@ == all.skip(n - k).reverse(),
            decreases n - k,
        {
            let e = page.pop().unwrap();
            assert(all.skip(n - k - 1) =~= seq![all[n - k - 1]] + all.skip(n - k));
            taken.push(e);
            assert(page@ =~= all.take(n - k - 1));
            assert(taken@ =~= all.skip(n - k - 1).reverse());
            k = k + 1;
        }
        assert(taken@ =~= all.reverse());
        assert(page_ids(all.take(0)).to_set() =~= Set::<Seq<char>>::empty());
        assert(views(ids@).to_set() =~= start + page_ids(all.take(0)).to_set());
        let mut i: usize = 0;
        while i < n
            invariant
                i <= n == all.len(),
                taken@ == all.reverse().take(n - i),
                views(ids@).no_duplicates(),
                views(ids@).to_set() == start + page_ids(all.take(i as int)).to_set(),
            decreases n - i,
        {
            let e = taken.pop().unwrap();
            assert(e == all[i as int]);
            assert(taken@ =~= all.reverse().take(n - i - 1));
            assert(all.take(i + 1).drop_last() =~= all.take(i as int));
            let ghost before = views(ids@);
            let ghost prior = page_ids(all.take(i as int));
            match e {
                Some(id) => {
                    proof {
                        prior.lemma_push_to_set_commute(id@);
                    }
                    if !holds(&ids, &id) {
                        ids.push(id);
                        assert(views(ids@) =~= before.push(all[i as int]->0@));
                        proof {
                            before.lemma_push_to_set_commute(all[i as int]->0@);
                        }
                    }
                    assert(views(ids@).to_set() =~= start + page_ids(all.take(i + 1)).to_set());
                },
                None => {},
            }
            i = i + 1;
        }
        assert(all.take(n as int) =~= all);
        self.ids = ids;
        self.finished = next_page_token.is_none();
        self.next_token = next_page_token;
    }

    /// The identifiers gathered, in page order, each once.
    pub fn into_ids(self) -> (r: Vec<String>)
        ensures
            views(r@) == self.spec_ids(),
            views(r@).no_duplicates(),
    {
        proof {
            use_type_invariant(&self);
        }
        self.ids
    }
}

/// Counts of one steady-state cycle: messages listed, classified, deleted, and
/// skipped on a per-message failure.
pub struct CycleTally {
    pub found: usize,
    pub processed: usize,
    pub deleted: usize,
    pub skipped: usize,
}

impl CycleTally {
    pub open spec fn wf(&self) -> bool {
        self.processed + self.skipped <= self.found && self.deleted <= self.processed
    }

    /// A tally for a cycle that listed `found` messages.
    pub fn new(found: usize) -> (r: CycleTally)
        ensures
            r.wf(),
            r == (CycleTally { found, processed: 0, deleted: 0, skipped: 0 }),
    {
        CycleTally { found, processed: 0, deleted: 0, skipped: 0 }
    }

    /// Whether every listed message has been accounted for.
    pub fn is_complete(&self) -> (r: bool)
        requires
            self.wf(),
        ensures
            r == (self.processed + self.skipped == self.found),
    {
        self.processed + self.skipped == self.found
    }

    /// Records one message's outcome: `Some(deleted)` when it was classified
    /// (and deleted or kept), `None` when it failed and was skipped.
    pub fn record(&mut self, outcome: Option<bool>)
        requires
            old(self).wf(),
            old(self).processed + old(self).skipped < old(self).found,
        ensures
            final(self).wf(),
            final(self).found == old(self).found,
            final(self).processed == old(self).processed + if outcome is Some {
                1int
            } else {
                0int
            },
            final(self).deleted == old(self).deleted + if outcome == Some(true) {
                1int
            } else {
                0int
            },
            final(self).skipped == old(self).skipped + if outcome is None {
                1int
            } else {
                0int
            },
    {
        match outcome {
            Some(deleted) => {
                self.processed = self.processed + 1;
                if deleted {
                    self.deleted = self.deleted + 1;
                }
            },
            None => {
                self.skipped = self.skipped + 1;
            },
        }
    }
}

/// `m` after discovery of the local-parts `s`: each one without an entry comes
/// in allowed; existing entries keep their flags.
pub open spec fn with_discovered(m: Map<Seq<char>, bool>, s: Set<Seq<char>>) -> Map<
    Seq<char>,
    bool,
> {
    Map::new(
        |k: Seq<char>| m.contains_key(k) || s.contains(k),
        |k: Seq<char>|
            if m.contains_key(k) {
                m[k]
            } else {
                true
            },
    )
}

/// Adds every address of `addresses` that has no entry yet, as allowed.
pub fn merge_discovered(config: &mut RoutingConfig, addresses: &Vec<String>)
    requires
        old(config).wf(),
    ensures
        final(config).wf(),
        final(config)@ == with_discovered(old(config)@, views(addresses@).to_set()),
        final(config).spec_updated_date() == old(config).spec_updated_date(),
{
    let ghost m0 = config@;
    let ghost vs = views(addresses@);
    let mut i: usize = 0;
    assert(config@ =~= with_discovered(m0, vs.take(0).to_set()));
    while i < addresses.len()
        invariant
            i <= addresses@.len(),
            vs == views(addresses@),
            config.wf(),
            config@ == with_discovered(m0, vs.take(i as int).to_set()),
            config.spec_updated_date() == old(config).spec_updated_date(),
        decreases addresses@.len() - i,
    {
        let ghost before = config@;
        config.add_address(addresses[i].clone());
        assert(addresses@[i as int]@ == vs[i as int]);
        assert(vs.take(i + 1) =~= vs.take(i as int).push(vs[i as int]));
        proof {
            vs.take(i as int).lemma_push_to_set_commute(vs[i as int]);
        }
        assert(with_address(before, vs[i as int]) =~= with_discovered(
            m0,
            vs.take(i + 1).to_set(),
        ));
        i = i + 1;
    }
    assert(vs.take(i as int) =~= vs);
}

/// The policy that bootstrap leaves: the existing one, or an empty one, with
/// every discovered address added as allowed where it has no entry, and the
/// watermark moved to `now`.
pub fn initialize_routing_config(
    existing: Option<RoutingConfig>,
    addresses: &Vec<String>,
    now: Timestamp,
) -> (r: RoutingConfig)
    requires
        existing matches Some(c) ==> c.wf(),
        now.wf(),
    ensures
        r.wf(),
        r@ == with_discovered(
            match existing {
                Some(c) => c@,
                None => Map::empty(),
            },
            views(addresses@).to_set(),
        ),
        r.spec_updated_date() == now,
{
    let mut config = match existing {
        Some(c) => c,
        None => RoutingConfig::new(now),
    };
    merge_discovered(&mut config, addresses);
    config.update_date(now);
    config
}

/// The date a scan starts from: the policy's watermark, or the configured
/// start date when there is no policy yet.
pub fn scan_start(existing: &Option<RoutingConfig>, start_date: Timestamp) -> (r: Timestamp)
    ensures
        r == match existing {
            Some(c) => c.spec_updated_date(),
            None => start_date,
        },
        (existing matches Some(c) ==> c.wf()) && start_date.wf() ==> r.wf(),
{
    match existing {
        Some(c) => c.updated_date(),
        None => start_date,
    }
}

/// What chrono writes for a calendar date under the pattern `%Y/%m/%d`.
pub uninterp spec fn day_text(year: int, month: int, day: int) -> Seq<char>;

/// Relies on chrono's `NaiveDate::from_ymd_opt`, which is `None` exactly for a
/// day that does not exist or a year out of its range, and on
/// `format("%Y/%m/%d")` of the date it builds.
#[verifier::external_body]
fn format_day(year: i32, month: u32, day: u32) -> (r: Option<String>)
    ensures
        r is Some <==> calendar_date(year as int, month as int, day as int),
        r matches Some(s) ==> s@ == day_text(year as int, month as int, day as int),
{
    match chrono::NaiveDate::from_ymd_opt(year, month, day) {
        Some(d) => Some(d.format("%Y/%m/%d").to_string()),
        None => None,
    }
}

/// The mailbox query for inbox messages after the day of `since`; `None` exactly
/// when that day is not a calendar date.
pub fn listing_query(since: Timestamp) -> (r: Option<String>)
    ensures
        r is Some <==> calendar_date(since.year as int, since.month as int, since.day as int),
        r matches Some(q) ==> q@ == "in:inbox after:"@ + day_text(
            since.year as int,
            since.month as int,
            since.day as int,
        ),
{
    match format_day(since.year, since.month, since.day) {
        Some(day) => {
            let mut q = String::from_str("in:inbox after:");
            q.append(day.as_str());
            Some(q)
        },
        None => None,
    }
}

} // verus!
