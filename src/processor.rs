//! Per-message classification against the policy, and address discovery over a
//! run of fetched messages.

use vstd::prelude::*;
use crate::address::{
    add_new, extract_recipients, message_recipients, views, MailMessage, RecipientError,
};
use crate::policy::{allowed_in, RoutingConfig};

verus! {

/// Some recipient of `rs` is blocked under `m`.
pub open spec fn any_blocked(rs: Seq<Seq<char>>, m: Map<Seq<char>, bool>) -> bool {
    exists|i: int| 0 <= i < rs.len() && !allowed_in(m, #[trigger] rs[i])
}

/// What classification decides for a message: `None` without headers, else
/// whether it is to be deleted.
pub open spec fn message_verdict(
    msg: MailMessage,
    domain: Seq<char>,
    m: Map<Seq<char>, bool>,
) -> Option<bool> {
    match message_recipients(msg, domain) {
        Some(rs) => Some(any_blocked(rs, m)),
        None => None,
    }
}

/// The local-parts addressed by `msg`, as a set; none for a failed fetch or a
/// message without headers.
pub open spec fn discovered_in(msg: Option<MailMessage>, domain: Seq<char>) -> Set<Seq<char>> {
    match msg {
        Some(mm) => match message_recipients(mm, domain) {
            Some(rs) => rs.to_set(),
            None => Set::empty(),
        },
        None => Set::empty(),
    }
}

/// The local-parts addressed by any of `msgs`.
pub open spec fn discovered(msgs: Seq<Option<MailMessage>>, domain: Seq<char>) -> Set<
    Seq<char>,
>
    decreases msgs.len(),
{
    if msgs.len() == 0 {
        Set::empty()
    } else {
        discovered(msgs.drop_last(), domain) + discovered_in(msgs.last(), domain)
    }
}

/// Whether some recipient is blocked depends on the set of recipients alone.
proof fn lemma_blocked_by_set(a: Seq<Seq<char>>, b: Seq<Seq<char>>, m: Map<Seq<char>, bool>)
    requires
        a.to_set() == b.to_set(),
    ensures
        any_blocked(a, m) == any_blocked(b, m),
{
    if any_blocked(a, m) {
        let i = choose|i: int| 0 <= i < a.len() && !allowed_in(m, #[trigger] a[i]);
        assert(a.to_set().contains(a[i]));
        let j = choose|j: int| 0 <= j < b.len() && b[j] == a[i];
        assert(!allowed_in(m, b[j]));
    }
    if any_blocked(b, m) {
        let i = choose|i: int| 0 <= i < b.len() && !allowed_in(m, #[trigger] b[i]);
        assert(b.to_set().contains(b[i]));
        let j = choose|j: int| 0 <= j < a.len() && a[j] == b[i];
        assert(!allowed_in(m, a[j]));
    }
}

/// Whether some recipient is blocked: the message is to be deleted. An empty
/// list is never deleted.
pub fn should_delete_message(recipients: &[String], routing_config: &RoutingConfig) -> (r: bool)
    requires
        routing_config.wf(),
    ensures
        r == any_blocked(views(recipients@), routing_config@),
        recipients@.len() == 0 ==> !r,
{
    let mut i: usize = 0;
    while i < recipients.len()
        invariant
            i <= recipients@.len(),
            routing_config.wf(),
            forall|j: int| 0 <= j < i ==> allowed_in(routing_config@, #[trigger] recipients@[j]@),
        decreases recipients@.len() - i,
    {
        if !routing_config.is_allowed(recipients[i].as_str()) {
            assert(views(recipients@)[i as int] == recipients@[i as int]@);
            return true;
        }
        i = i + 1;
    }
    assert forall|j: int| 0 <= j < views(recipients@).len() implies allowed_in(
        routing_config@,
        #[trigger] views(recipients@)[j],
    ) by {
        assert(views(recipients@)[j] == recipients@[j]@);
    }
    false
}

/// Classifies one fetched message: an error without headers, else whether it
/// is to be deleted (never when it has no recipient under `domain`).
pub fn classify_message(message: &MailMessage, domain: &str, routing_config: &RoutingConfig) -> (r:
    Result<bool, RecipientError>)
    requires
        routing_config.wf(),
    ensures
        match message_verdict(*message, domain@, routing_config@) {
            Some(b) => r == Ok::<bool, RecipientError>(b),
            None => r == Err::<bool, RecipientError>(RecipientError::NoHeaders),
        },
{
    let recipients = extract_recipients(message, domain)?;
    proof {
        lemma_blocked_by_set(
            views(recipients@),
            message_recipients(*message, domain@)->0,
            routing_config@,
        );
    }
    if recipients.len() == 0 {
        return Ok(false);
    }
    Ok(should_delete_message(recipients.as_slice(), routing_config))
}

/// Adds to `found` each recipient of `message` not already there. A message
/// without headers adds nothing and is reported.
pub fn note_recipients(found: &mut Vec<String>, message: &MailMessage, domain: &str) -> (r: Result<
    (),
    RecipientError,
>)
    requires
        views(old(found)@).no_duplicates(),
    ensures
        views(final(found)@).no_duplicates(),
        views(final(found)@).to_set() == views(old(found)@).to_set() + discovered_in(
            Some(*message),
            domain@,
        ),
        r is Err <==> message.headers is None,
{
    let ghost start = views(found@).to_set();
    match extract_recipients(message, domain) {
        Ok(rs) => {
            add_new(found, &rs);
            Ok(())
        },
        Err(e) => {
            assert(views(found@).to_set() =~= start + Set::empty());
            Err(e)
        },
    }
}

/// The distinct local-parts addressed by the messages that were fetched and
/// carry headers; failed fetches (`None`) and header-less messages are skipped.
pub fn collect_all_addresses(messages: &[Option<MailMessage>], domain: &str) -> (r: Vec<String>)
    ensures
        views(r@).no_duplicates(),
        views(r@).to_set() == discovered(messages@, domain@),
{
    let mut found: Vec<String> = Vec::new();
    let mut i: usize = 0;
    assert(views(found@).to_set() =~= Set::empty());
    assert(messages@.take(0) =~= Seq::<Option<MailMessage>>::empty());
    while i < messages.len()
        invariant
            i <= messages@.len(),
            views(found@).no_duplicates(),
            views(found@).to_set() == discovered(messages@.take(i as int), domain@),
        decreases messages@.len() - i,
    {
        assert(messages@.take(i + 1).drop_last() =~= messages@.take(i as int));
        match &messages[i] {
            Some(m) => {
                let _ = note_recipients(&mut found, m, domain);
            },
            None => {
                assert(views(found@).to_set() =~= discovered(messages@.take(i + 1), domain@));
            },
        }
        i = i + 1;
    }
    assert(messages@.take(i as int) =~= messages@);
    found
}

} // verus!
