//! Properties that hold across the library's functions, proved once for all inputs.

use vstd::prelude::*;
use crate::address::{
    address_of, ends_with, find_char, header_recipients, local_part, locals_of, lower_of,
    split_on,
};
use crate::pipeline::{page_ids, with_discovered};
use crate::policy::{allowed_in, with_address};
use crate::processor::any_blocked;

verus! {

/// `r` is the lowercased local-part of some part of `parts` under `domain`.
pub open spec fn from_some_part(parts: Seq<Seq<char>>, domain: Seq<char>, r: Seq<char>) -> bool {
    exists|j: int|
        0 <= j < parts.len() && #[trigger] local_part(parts[j], domain) is Some && r == lower_of(
            local_part(parts[j], domain)->0,
        )
}

/// `r` is the lowercased local-part of one of the comma-separated addresses of
/// `value` that ends in exactly `"@" + domain`.
pub open spec fn from_in_domain_address(value: Seq<char>, domain: Seq<char>, r: Seq<char>) -> bool {
    exists|j: int|
        0 <= j < split_on(value, ',').len() && ends_with(
            #[trigger] address_of(split_on(value, ',')[j]),
            seq!['@'] + domain,
        ) && r == lower_of(
            address_of(split_on(value, ',')[j]).take(
                find_char(address_of(split_on(value, ',')[j]), '@', 0),
            ),
        )
}

proof fn lemma_locals_from_in_domain(parts: Seq<Seq<char>>, domain: Seq<char>)
    ensures
        forall|i: int|
            0 <= i < locals_of(parts, domain).len() ==> from_some_part(
                parts,
                domain,
                #[trigger] locals_of(parts, domain)[i],
            ),
    decreases parts.len(),
{
    if parts.len() > 0 {
        let rest = parts.drop_last();
        lemma_locals_from_in_domain(rest, domain);
        let out = locals_of(parts, domain);
        assert forall|i: int| 0 <= i < out.len() implies from_some_part(
            parts,
            domain,
            #[trigger] out[i],
        ) by {
            if i < locals_of(rest, domain).len() {
                assert(from_some_part(rest, domain, locals_of(rest, domain)[i]));
                let j = choose|j: int|
                    0 <= j < rest.len() && #[trigger] local_part(rest[j], domain) is Some
                        && locals_of(rest, domain)[i] == lower_of(local_part(rest[j], domain)->0);
                assert(rest[j] == parts[j]);
                assert(local_part(parts[j], domain) is Some);
            } else {
                assert(local_part(parts[parts.len() - 1], domain) is Some);
            }
        }
    }
}

/// Only in-domain addresses yield recipients: every recipient of a header value
/// is the lowercased local-part of one of its comma-separated addresses that ends
/// in exactly `"@" + domain`.
pub proof fn lemma_recipients_in_domain(value: Seq<char>, domain: Seq<char>)
    ensures
        forall|i: int|
            0 <= i < header_recipients(value, domain).len() ==> from_in_domain_address(
                value,
                domain,
                #[trigger] header_recipients(value, domain)[i],
            ),
{
    let parts = split_on(value, ',');
    lemma_locals_from_in_domain(parts, domain);
    assert forall|i: int| 0 <= i < header_recipients(value, domain).len() implies from_in_domain_address(
        value,
        domain,
        #[trigger] header_recipients(value, domain)[i],
    ) by {
        assert(from_some_part(parts, domain, locals_of(parts, domain)[i]));
        let j = choose|j: int|
            0 <= j < parts.len() && #[trigger] local_part(parts[j], domain) is Some
                && locals_of(parts, domain)[i] == lower_of(local_part(parts[j], domain)->0);
        assert(ends_with(address_of(parts[j]), seq!['@'] + domain));
    }
}

/// Default allow: a policy without entries allows every local-part.
pub proof fn lemma_empty_policy_allows(local: Seq<char>)
    ensures
        allowed_in(Map::empty(), local),
{
}

/// Adding an address twice is adding it once, and adding never changes the
/// flag of an entry already present: a blocked local-part stays blocked.
pub proof fn lemma_add_address_idempotent(m: Map<Seq<char>, bool>, local: Seq<char>)
    ensures
        with_address(with_address(m, local), local) == with_address(m, local),
        forall|k: Seq<char>| #[trigger]
            m.contains_key(k) ==> with_address(m, local).contains_key(k) && with_address(
                m,
                local,
            )[k] == m[k],
        m.contains_key(local) && !m[local] ==> !allowed_in(with_address(m, local), local),
        allowed_in(with_address(m, local), local) == allowed_in(m, local),
{
}

/// Deletion is decided by the blocked entries alone: a recipient list with a
/// blocked local-part is deleted, one whose every local-part is allowed (with or
/// without an entry) is kept, and an empty one is always kept.
pub proof fn lemma_delete_decision(rs: Seq<Seq<char>>, m: Map<Seq<char>, bool>)
    ensures
        (exists|i: int| 0 <= i < rs.len() && m.contains_key(rs[i]) && !m[rs[i]]) ==> any_blocked(
            rs,
            m,
        ),
        (forall|i: int| 0 <= i < rs.len() ==> allowed_in(m, #[trigger] rs[i])) ==> !any_blocked(
            rs,
            m,
        ),
        rs.len() == 0 ==> !any_blocked(rs, m),
{
    if exists|i: int| 0 <= i < rs.len() && m.contains_key(rs[i]) && !m[rs[i]] {
        let i = choose|i: int| 0 <= i < rs.len() && m.contains_key(rs[i]) && !m[rs[i]];
        assert(!allowed_in(m, rs[i]));
    }
}

/// Bootstrap discovery run twice over the same addresses leaves what one run
/// left; neither run changes the flag of an existing entry, and both add
/// exactly the discovered local-parts that had no entry.
pub proof fn lemma_rediscovery_idempotent(m: Map<Seq<char>, bool>, found: Set<Seq<char>>)
    ensures
        with_discovered(with_discovered(m, found), found) == with_discovered(m, found),
        forall|k: Seq<char>| #[trigger]
            m.contains_key(k) ==> with_discovered(m, found)[k] == m[k],
        with_discovered(m, found).dom() == m.dom() + found,
        forall|k: Seq<char>| #[trigger]
            found.contains(k) && !m.contains_key(k) ==> with_discovered(m, found)[k],
{
    assert(with_discovered(with_discovered(m, found), found) =~= with_discovered(m, found));
    assert(with_discovered(m, found).dom() =~= m.dom() + found);
}

/// A listing taken over three pages from a new one gathers, by the contract of
/// `Listing::absorb_page`, the set `{} + ids(p1) + ids(p2) + ids(p3)` with no
/// identifier twice: an identifier is in it exactly when one of the pages carries
/// it, so no page's identifier is lost and nothing else comes in.
pub proof fn lemma_three_pages(
    p1: Seq<Option<String>>,
    p2: Seq<Option<String>>,
    p3: Seq<Option<String>>,
    id: Seq<char>,
)
    ensures
        (Set::<Seq<char>>::empty() + page_ids(p1).to_set() + page_ids(p2).to_set() + page_ids(
            p3,
        ).to_set()).contains(id) <==> (page_ids(p1).contains(id) || page_ids(p2).contains(id)
            || page_ids(p3).contains(id)),
{
}

} // verus!
