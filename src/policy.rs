//! The allow/block policy keyed by local-part, with its watermark date.

use vstd::prelude::*;

verus! {

/// A UTC instant held as its calendar fields.
#[derive(Debug, Clone, Copy, PartialEq, Eq, Structural)]
pub struct Timestamp {
    pub year: i32,
    pub month: u32,
    pub day: u32,
    pub hour: u32,
    pub minute: u32,
    pub second: u32,
    pub nanosecond: u32,
}

/// A leap year of the proleptic Gregorian calendar.
pub open spec fn is_leap_year(year: int) -> bool {
    (year % 4 == 0 && year % 100 != 0) || year % 400 == 0
}

pub open spec fn days_in_month(year: int, month: int) -> int {
    if month == 2 {
        if is_leap_year(year) {
            29
        } else {
            28
        }
    } else if month == 4 || month == 6 || month == 9 || month == 11 {
        30
    } else {
        31
    }
}

/// A day that exists, in the range of years that chrono's dates cover.
pub open spec fn calendar_date(year: int, month: int, day: int) -> bool {
    -262143 <= year <= 262142 && 1 <= month <= 12 && 1 <= day <= days_in_month(year, month)
}

impl Timestamp {
    /// A real calendar day and time of day; a second past 59 is written as
    /// `nanosecond` of a billion or more.
    pub open spec fn wf(&self) -> bool {
        &&& calendar_date(self.year as int, self.month as int, self.day as int)
        &&& self.hour < 24
        &&& self.minute < 60
        &&& self.second < 60
        &&& self.nanosecond < 2_000_000_000
    }

    /// Whether this is a real calendar day and time of day.
    pub fn is_valid(&self) -> (r: bool)
        ensures
            r == self.wf(),
    {
        if self.year < -262143 || self.year > 262142 || self.month < 1 || self.month > 12
            || self.day < 1 {
            return false;
        }
        // Shifted by a multiple of 400 so that the remainders are those of the year.
        let shifted = (self.year + 400000) as u32;
        assert(shifted % 4 == (self.year as int) % 4 && shifted % 100 == (self.year as int) % 100
            && shifted % 400 == (self.year as int) % 400) by (nonlinear_arith)
            requires
                shifted == self.year + 400000,
        ;
        let leap = (shifted % 4 == 0 && shifted % 100 != 0) || shifted % 400 == 0;
        let days: u32 = if self.month == 2 {
            if leap {
                29
            } else {
                28
            }
        } else if self.month == 4 || self.month == 6 || self.month == 9 || self.month == 11 {
            30
        } else {
            31
        };
        self.day <= days && self.hour < 24 && self.minute < 60 && self.second < 60
            && self.nanosecond < 2_000_000_000
    }

    /// 1970-01-01 00:00:00 UTC.
    pub fn epoch() -> (r: Timestamp)
        ensures
            r.wf(),
            r == (Timestamp {
                year: 1970,
                month: 1,
                day: 1,
                hour: 0,
                minute: 0,
                second: 0,
                nanosecond: 0,
            }),
    {
        Timestamp { year: 1970, month: 1, day: 1, hour: 0, minute: 0, second: 0, nanosecond: 0 }
    }
}

/// The settings the service runs with: where its API credentials are, the
/// owned domain, the poll interval, and the date the first scan starts from.
pub struct CredentialsConfig {
    pub google_credentials_path: String,
    pub domain: String,
    pub check_interval_seconds: u64,
    pub start_date: Timestamp,
}

/// No two entries share a local-part.
pub open spec fn unique_keys(e: Seq<(String, bool)>) -> bool {
    forall|i: int, j: int| 0 <= i < j < e.len() ==> e[i].0@ != e[j].0@
}

/// The mapping that a list of entries stands for.
pub open spec fn entries_map(e: Seq<(String, bool)>) -> Map<Seq<char>, bool>
    decreases e.len(),
{
    if e.len() == 0 {
        Map::empty()
    } else {
        entries_map(e.drop_last()).insert(e.last().0@, e.last().1)
    }
}

/// Default-allow lookup: a local-part without an entry is allowed.
pub open spec fn allowed_in(m: Map<Seq<char>, bool>, local: Seq<char>) -> bool {
    if m.contains_key(local) {
        m[local]
    } else {
        true
    }
}

/// `m` after `add_address` of `local`: an absent local-part comes in allowed,
/// a present one keeps its flag.
pub open spec fn with_address(m: Map<Seq<char>, bool>, local: Seq<char>) -> Map<Seq<char>, bool> {
    if m.contains_key(local) {
        m
    } else {
        m.insert(local, true)
    }
}

/// The policy record: local-part to allowed flag, and the date up to which it
/// reflects the mailbox.
pub struct RoutingConfig {
    addresses: Vec<(String, bool)>,
    updated_date: Timestamp,
}

proof fn lemma_unique_prefix(e: Seq<(String, bool)>)
    requires
        unique_keys(e),
        e.len() > 0,
    ensures
        unique_keys(e.drop_last()),
{
}

proof fn lemma_map_has(e: Seq<(String, bool)>, i: int)
    requires
        unique_keys(e),
        0 <= i < e.len(),
    ensures
        entries_map(e).contains_key(e[i].0@),
        entries_map(e)[e[i].0@] == e[i].1,
    decreases e.len(),
{
    if i < e.len() - 1 {
        lemma_unique_prefix(e);
        lemma_map_has(e.drop_last(), i);
    }
}

proof fn lemma_map_lacks(e: Seq<(String, bool)>, k: Seq<char>)
    requires
        forall|j: int| 0 <= j < e.len() ==> e[j].0@ != k,
    ensures
        !entries_map(e).contains_key(k),
    decreases e.len(),
{
    if e.len() > 0 {
        lemma_map_lacks(e.drop_last(), k);
    }
}

proof fn lemma_map_update(e: Seq<(String, bool)>, i: int, x: (String, bool))
    requires
        unique_keys(e),
        0 <= i < e.len(),
        x.0@ == e[i].0@,
    ensures
        entries_map(e.update(i, x)) == entries_map(e).insert(x.0@, x.1),
    decreases e.len(),
{
    let u = e.update(i, x);
    if i == e.len() - 1 {
        assert(u.drop_last() =~= e.drop_last());
        assert(entries_map(u) =~= entries_map(e).insert(x.0@, x.1));
    } else {
        lemma_unique_prefix(e);
        assert(u.drop_last() =~= e.drop_last().update(i, x));
        lemma_map_update(e.drop_last(), i, x);
        assert(entries_map(u) =~= entries_map(e).insert(x.0@, x.1));
    }
}

impl View for RoutingConfig {
    type V = Map<Seq<char>, bool>;

    closed spec fn view(&self) -> Map<Seq<char>, bool> {
        entries_map(self.addresses@)
    }
}

impl RoutingConfig {
    pub closed spec fn wf(&self) -> bool {
        unique_keys(self.addresses@) && self.updated_date.wf()
    }

    pub closed spec fn spec_updated_date(&self) -> Timestamp {
        self.updated_date
    }

    /// An empty policy whose watermark is `updated_date`.
    pub fn new(updated_date: Timestamp) -> (r: RoutingConfig)
        requires
            updated_date.wf(),
        ensures
            r.wf(),
            r@ == Map::<Seq<char>, bool>::empty(),
            r.spec_updated_date() == updated_date,
    {
        RoutingConfig { addresses: Vec::new(), updated_date }
    }

    /// The watermark date.
    pub fn updated_date(&self) -> (r: Timestamp)
        ensures
            r == self.spec_updated_date(),
            self.wf() ==> r.wf(),
    {
        self.updated_date
    }

    /// The index of the entry for `local`, if there is one.
    fn position(&self, local: &str) -> (r: Option<usize>)
        requires
            self.wf(),
        ensures
            match r {
                Some(i) => i < self.addresses@.len() && self.addresses@[i as int].0@ == local@,
                None => !self@.contains_key(local@),
            },
    {
        let key = String::from_str(local);
        let mut i: usize = 0;
        while i < self.addresses.len()
            invariant
                i <= self.addresses@.len(),
                key@ == local@,
                forall|j: int| 0 <= j < i ==> self.addresses@[j].0@ != local@,
            decreases self.addresses@.len() - i,
        {
            if self.addresses[i].0 == key {
                return Some(i);
            }
            i = i + 1;
        }
        proof {
            lemma_map_lacks(self.addresses@, local@);
        }
        None
    }

    /// The stored flag of `local_part`, or `true` when it has no entry.
    pub fn is_allowed(&self, local_part: &str) -> (r: bool)
        requires
            self.wf(),
        ensures
            r == allowed_in(self@, local_part@),
    {
        match self.position(local_part) {
            Some(i) => {
                proof {
                    lemma_map_has(self.addresses@, i as int);
                }
                self.addresses[i].1
            },
            None => true,
        }
    }

    /// Adds `local_part` as allowed when it has no entry; an existing entry,
    /// allowed or blocked, stays as it is.
    pub fn add_address(&mut self, local_part: String)
        requires
            old(self).wf(),
        ensures
            final(self).wf(),
            final(self)@ == with_address(old(self)@, local_part@),
            final(self).spec_updated_date() == old(self).spec_updated_date(),
    {
        match self.position(local_part.as_str()) {
            Some(i) => {
                proof {
                    lemma_map_has(self.addresses@, i as int);
                }
            },
            None => {
                let ghost before = self.addresses@;
                self.addresses.push((local_part, true));
                assert(self.addresses@.drop_last() =~= before);
                proof {
                    lemma_map_lacks_keys(before, local_part@);
                }
            },
        }
    }

    /// Sets the flag of `local_part`, adding or overwriting its entry.
    pub fn set_address(&mut self, local_part: String, allowed: bool)
        requires
            old(self).wf(),
        ensures
            final(self).wf(),
            final(self)@ == old(self)@.insert(local_part@, allowed),
            final(self).spec_updated_date() == old(self).spec_updated_date(),
    {
        match self.position(local_part.as_str()) {
            Some(i) => {
                let ghost before = self.addresses@;
                let ghost x = (local_part, allowed);
                proof {
                    lemma_map_update(before, i as int, x);
                }
                self.addresses.set(i, (local_part, allowed));
                assert(self.addresses@ == before.update(i as int, x));
            },
            None => {
                let ghost before = self.addresses@;
                self.addresses.push((local_part, allowed));
                assert(self.addresses@.drop_last() =~= before);
                proof {
                    lemma_map_lacks_keys(before, local_part@);
                }
            },
        }
    }

    /// Moves the watermark to `date`.
    pub fn update_date(&mut self, date: Timestamp)
        requires
            old(self).wf(),
            date.wf(),
        ensures
            final(self).wf(),
            final(self)@ == old(self)@,
            final(self).spec_updated_date() == date,
    {
        self.updated_date = date;
    }

    /// The entries, one per local-part.
    pub fn entries(&self) -> (r: &Vec<(String, bool)>)
        requires
            self.wf(),
        ensures
            unique_keys(r@),
            entries_map(r@) == self@,
    {
        &self.addresses
    }
}

impl Default for RoutingConfig {
    /// An empty policy whose watermark is the epoch.
    fn default() -> (r: RoutingConfig)
        ensures
            r.wf(),
            r@ == Map::<Seq<char>, bool>::empty(),
            r.spec_updated_date() == (Timestamp {
                year: 1970,
                month: 1,
                day: 1,
                hour: 0,
                minute: 0,
                second: 0,
                nanosecond: 0,
            }),
    {
        RoutingConfig::new(Timestamp::epoch())
    }
}

/// A key absent from the map is absent from every entry.
proof fn lemma_map_lacks_keys(e: Seq<(String, bool)>, k: Seq<char>)
    requires
        unique_keys(e),
        !entries_map(e).contains_key(k),
    ensures
        forall|j: int| 0 <= j < e.len() ==> e[j].0@ != k,
{
    assert forall|j: int| 0 <= j < e.len() implies e[j].0@ != k by {
        lemma_map_has(e, j);
    }
}

} // verus!
