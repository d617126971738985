//! Recipient extraction from "To" header values.

use vstd::prelude::*;

verus! {

/// The characters that carry the Unicode `White_Space` property.
pub open spec fn is_white(c: char) -> bool {
    let u = c as u32;
    (0x09 <= u && u <= 0x0d) || u == 0x20 || u == 0x85 || u == 0xa0 || u == 0x1680 || (0x2000
        <= u && u <= 0x200a) || u == 0x2028 || u == 0x2029 || u == 0x202f || u == 0x205f || u
        == 0x3000
}

/// Drops leading whitespace.
pub open spec fn trim_front(s: Seq<char>) -> Seq<char>
    decreases s.len(),
{
    if s.len() > 0 && is_white(s[0]) {
        trim_front(s.drop_first())
    } else {
        s
    }
}

/// Drops trailing whitespace.
pub open spec fn trim_back(s: Seq<char>) -> Seq<char>
    decreases s.len(),
{
    if s.len() > 0 && is_white(s.last()) {
        trim_back(s.drop_last())
    } else {
        s
    }
}

/// Drops whitespace at both ends.
pub open spec fn trimmed(s: Seq<char>) -> Seq<char> {
    trim_back(trim_front(s))
}

/// The first index at or after `i` that holds `c`, or `s.len()` when there is none.
pub open spec fn find_char(s: Seq<char>, c: char, i: int) -> int
    decreases s.len() - i,
{
    if i >= s.len() {
        s.len() as int
    } else if s[i] == c {
        i
    } else {
        find_char(s, c, i + 1)
    }
}

/// The parts of `s` between occurrences of `sep`; there is always at least one.
pub open spec fn split_on(s: Seq<char>, sep: char) -> Seq<Seq<char>>
    decreases s.len(),
{
    if s.len() == 0 {
        seq![Seq::empty()]
    } else {
        let p = split_on(s.drop_last(), sep);
        if s.last() == sep {
            p.push(Seq::empty())
        } else {
            p.update(p.len() - 1, p.last().push(s.last()))
        }
    }
}

/// In `Name <addr>` the text between the first `<` and the first `>` after it;
/// any other text is taken whole.
pub open spec fn bracketed(t: Seq<char>) -> Seq<char> {
    let open = find_char(t, '<', 0);
    let close = find_char(t, '>', open + 1);
    if open < t.len() && close < t.len() {
        t.subrange(open + 1, close)
    } else {
        t
    }
}

pub open spec fn ends_with(s: Seq<char>, suffix: Seq<char>) -> bool {
    suffix.len() <= s.len() && s.subrange(s.len() - suffix.len(), s.len() as int) == suffix
}

/// The address that one comma-separated part of a header names.
pub open spec fn address_of(part: Seq<char>) -> Seq<char> {
    trimmed(bracketed(trimmed(part)))
}

/// The local-part of the address in `part` when that address ends in `"@" + domain`.
pub open spec fn local_part(part: Seq<char>, domain: Seq<char>) -> Option<Seq<char>> {
    let addr = address_of(part);
    if ends_with(addr, seq!['@'] + domain) {
        Some(addr.take(find_char(addr, '@', 0)))
    } else {
        None
    }
}

/// What `str::to_lowercase` returns for a string.
pub uninterp spec fn lower_of(s: Seq<char>) -> Seq<char>;

/// The lowercased local-parts of the in-domain addresses among `parts`, in order.
pub open spec fn locals_of(parts: Seq<Seq<char>>, domain: Seq<char>) -> Seq<Seq<char>>
    decreases parts.len(),
{
    if parts.len() == 0 {
        Seq::empty()
    } else {
        let rest = locals_of(parts.drop_last(), domain);
        match local_part(parts.last(), domain) {
            Some(l) => rest.push(lower_of(l)),
            None => rest,
        }
    }
}

/// The recipients that one header value addresses under `domain`.
pub open spec fn header_recipients(value: Seq<char>, domain: Seq<char>) -> Seq<Seq<char>> {
    locals_of(split_on(value, ','), domain)
}

pub open spec fn views(v: Seq<String>) -> Seq<Seq<char>> {
    v.map_values(|s: String| s@)
}

/// Relies on `char::is_whitespace`: true exactly for the `White_Space` characters.
#[verifier::external_body]
fn white(c: char) -> (r: bool)
    ensures
        r == is_white(c),
{
    c.is_whitespace()
}

/// Relies on `str::to_lowercase`: the result depends on the characters alone.
#[verifier::external_body]
fn lowercase(s: &str) -> (r: String)
    ensures
        r@ == lower_of(s@),
{
    s.to_lowercase()
}

fn chars_of(s: &str) -> (r: Vec<char>)
    ensures
        r@ == s@,
{
    let n = s.unicode_len();
    let mut r: Vec<char> = Vec::new();
    let mut i: usize = 0;
    while i < n
        invariant
            n == s@.len(),
            i <= n,
            r@ == s@.take(i as int),
        decreases n - i,
    {
        r.push(s.get_char(i));
        i = i + 1;
        assert(r@ =~= s@.take(i as int));
    }
    assert(r@ =~= s@);
    r
}

/// The first index in `from..hi` that holds `c`, or `hi`.
fn find_in(v: &Vec<char>, c: char, lo: usize, from: usize, hi: usize) -> (r: usize)
    requires
        lo <= from <= hi <= v@.len(),
    ensures
        r == lo + find_char(v@.subrange(lo as int, hi as int), c, from - lo),
        from <= r <= hi,
{
    let ghost t = v@.subrange(lo as int, hi as int);
    let mut k = from;
    while k < hi && v[k] != c
        invariant
            lo <= from <= k <= hi <= v@.len(),
            t == v@.subrange(lo as int, hi as int),
            find_char(t, c, from - lo) == find_char(t, c, k - lo),
        decreases hi - k,
    {
        k = k + 1;
    }
    k
}

/// The bounds of `v[lo..hi]` with whitespace dropped at both ends.
fn trim_in(v: &Vec<char>, lo: usize, hi: usize) -> (r: (usize, usize))
    requires
        lo <= hi <= v@.len(),
    ensures
        lo <= r.0 <= r.1 <= hi,
        v@.subrange(r.0 as int, r.1 as int) == trimmed(v@.subrange(lo as int, hi as int)),
{
    let mut a = lo;
    while a < hi && white(v[a])
        invariant
            lo <= a <= hi <= v@.len(),
            trim_front(v@.subrange(lo as int, hi as int)) == trim_front(
                v@.subrange(a as int, hi as int),
            ),
        decreases hi - a,
    {
        assert(v@.subrange(a as int, hi as int).drop_first() =~= v@.subrange(
            a + 1,
            hi as int,
        ));
        a = a + 1;
    }
    let mut b = hi;
    while b > a && white(v[b - 1])
        invariant
            lo <= a <= b <= hi <= v@.len(),
            trim_back(v@.subrange(a as int, hi as int)) == trim_back(
                v@.subrange(a as int, b as int),
            ),
        decreases b - a,
    {
        assert(v@.subrange(a as int, b as int).drop_last() =~= v@.subrange(
            a as int,
            b - 1,
        ));
        b = b - 1;
    }
    (a, b)
}

/// Whether `v[p..q]` ends in `"@" + d`.
fn at_domain(v: &Vec<char>, p: usize, q: usize, d: &Vec<char>) -> (r: bool)
    requires
        p <= q <= v@.len(),
    ensures
        r == ends_with(v@.subrange(p as int, q as int), seq!['@'] + d@),
{
    let ghost a = v@.subrange(p as int, q as int);
    let ghost suffix = seq!['@'] + d@;
    if d.len() >= q - p {
        return false;
    }
    let s0 = q - d.len() - 1;
    let ghost tail = a.subrange(a.len() - suffix.len(), a.len() as int);
    assert(tail =~= v@.subrange(s0 as int, q as int));
    if v[s0] != '@' {
        assert(tail[0] != suffix[0]);
        return false;
    }
    let mut j: usize = 0;
    while j < d.len()
        invariant
            s0 + 1 + d@.len() == q <= v@.len(),
            j <= d@.len(),
            v@[s0 as int] == '@',
            forall|k: int| 0 <= k < j ==> v@[s0 + 1 + k] == d@[k],
            tail == v@.subrange(s0 as int, q as int),
            a == v@.subrange(p as int, q as int),
            p <= s0,
            tail == a.subrange(a.len() - suffix.len(), a.len() as int),
            suffix == seq!['@'] + d@,
        decreases d@.len() - j,
    {
        if v[s0 + 1 + j] != d[j] {
            assert(tail[1 + j as int] != suffix[1 + j as int]);
            return false;
        }
        j = j + 1;
    }
    assert(tail =~= suffix);
    true
}

/// The lowercased local-part named by `v[lo..hi]`, when it is under domain `d`.
fn part_local(v: &Vec<char>, src: &str, lo: usize, hi: usize, d: &Vec<char>) -> (r: Option<
    String,
>)
    requires
        src@ == v@,
        lo <= hi <= v@.len(),
    ensures
        match local_part(v@.subrange(lo as int, hi as int), d@) {
            Some(l) => r is Some && r->0@ == lower_of(l),
            None => r is None,
        },
{
    let (a, b) = trim_in(v, lo, hi);
    let ghost t = v@.subrange(a as int, b as int);
    let o = find_in(v, '<', a, a, b);
    let mut x = a;
    let mut y = b;
    if o < b {
        let cl = find_in(v, '>', a, o + 1, b);
        if cl < b {
            x = o + 1;
            y = cl;
            assert(t.subrange(o + 1 - a, cl - a) =~= v@.subrange(x as int, y as int));
        }
    }
    assert(v@.subrange(x as int, y as int) == bracketed(t));
    let (p, q) = trim_in(v, x, y);
    let ghost addr = v@.subrange(p as int, q as int);
    if at_domain(v, p, q, d) {
        let m = find_in(v, '@', p, p, q);
        assert(addr.take(m - p) =~= v@.subrange(p as int, m as int));
        let local = src.substring_char(p, m);
        Some(lowercase(local))
    } else {
        None
    }
}

/// The lowercased local-parts of the addresses under `domain` in one header value,
/// in the order in which they appear.
pub fn parse_email_addresses(header_value: &str, domain: &str) -> (r: Vec<String>)
    ensures
        views(r@) == header_recipients(header_value@, domain@),
{
    let v = chars_of(header_value);
    let d = chars_of(domain);
    let ghost mut done: Seq<Seq<char>> = Seq::empty();
    let mut out: Vec<String> = Vec::new();
    let mut start: usize = 0;
    let mut i: usize = 0;
    assert(v@.take(0) =~= Seq::<char>::empty());
    assert(v@.subrange(0, 0) =~= Seq::<char>::empty());
    while i < v.len()
        invariant
            v@ == header_value@,
            d@ == domain@,
            start <= i <= v@.len(),
            split_on(v@.take(i as int), ',') == done.push(v@.subrange(start as int, i as int)),
            views(out@) == locals_of(done, d@),
        decreases v@.len() - i,
    {
        assert(v@.take(i + 1).drop_last() =~= v@.take(i as int));
        if v[i] == ',' {
            let part = part_local(&v, header_value, start, i, &d);
            let ghost seg = v@.subrange(start as int, i as int);
            let ghost old_out = out@;
            match part {
                Some(s) => {
                    out.push(s);
                    assert(views(out@) =~= views(old_out).push(s@));
                },
                None => {},
            }
            proof {
                let old_done = done;
                done = done.push(seg);
                assert(done.drop_last() =~= old_done);
                assert(v@.subrange(i + 1, i + 1) =~= Seq::<char>::empty());
            }
            start = i + 1;
        } else {
            assert(v@.subrange(start as int, i as int).push(v@[i as int]) =~= v@.subrange(
                start as int,
                i + 1,
            ));
            assert(done.push(v@.subrange(start as int, i as int)).update(
                done.len() as int,
                v@.subrange(start as int, i as int).push(v@[i as int]),
            ) =~= done.push(v@.subrange(start as int, i + 1)));
        }
        i = i + 1;
    }
    assert(v@.take(i as int) =~= v@);
    let part = part_local(&v, header_value, start, i, &d);
    let ghost seg = v@.subrange(start as int, i as int);
    let ghost old_out = out@;
    match part {
        Some(s) => {
            out.push(s);
            assert(views(out@) =~= views(old_out).push(s@));
        },
        None => {},
    }
    proof {
        let old_done = done;
        done = done.push(seg);
        assert(done.drop_last() =~= old_done);
    }
    out
}

/// One header line of a fetched message.
pub struct Header {
    pub name: Option<String>,
    pub value: Option<String>,
}

/// The part of a fetched message that classification reads: its header
/// collection, absent when the fetch was malformed.
pub struct MailMessage {
    pub headers: Option<Vec<Header>>,
}

#[derive(Debug, Clone, Copy, PartialEq, Eq, Structural)]
pub enum RecipientError {
    /// The message carries no header collection at all.
    NoHeaders,
}

/// A header whose name is "To" in any case, and which has a value.
pub open spec fn is_to_header(h: Header) -> bool {
    h.name is Some && h.value is Some && lower_of(h.name->0@) == "to"@
}

/// The recipients under `domain` of all "To" headers among `hs`, in order.
pub open spec fn headers_recipients(hs: Seq<Header>, domain: Seq<char>) -> Seq<Seq<char>>
    decreases hs.len(),
{
    if hs.len() == 0 {
        Seq::empty()
    } else {
        let rest = headers_recipients(hs.drop_last(), domain);
        if is_to_header(hs.last()) {
            rest + header_recipients(hs.last().value->0@, domain)
        } else {
            rest
        }
    }
}

/// What `extract_recipients` yields for a message: an error without headers.
pub open spec fn message_recipients(m: MailMessage, domain: Seq<char>) -> Option<Seq<Seq<char>>> {
    match m.headers {
        Some(hs) => Some(headers_recipients(hs@, domain)),
        None => None,
    }
}

fn names_to(name: &String) -> (r: bool)
    ensures
        r == (lower_of(name@) == "to"@),
{
    let lowered = lowercase(name.as_str());
    let to = String::from_str("to");
    lowered == to
}

/// Whether `found` holds a string equal to `s`.
pub(crate) fn holds(found: &Vec<String>, s: &String) -> (r: bool)
    ensures
        r == views(found@).contains(s@),
{
    let mut i: usize = 0;
    while i < found.len()
        invariant
            i <= found@.len(),
            forall|j: int| 0 <= j < i ==> found@[j]@ != s@,
        decreases found@.len() - i,
    {
        if found[i] == *s {
            assert(views(found@)[i as int] == s@);
            return true;
        }
        i = i + 1;
    }
    assert forall|j: int| 0 <= j < views(found@).len() implies views(found@)[j] != s@ by {
        assert(views(found@)[j] == found@[j]@);
    }
    false
}

/// Appends each string of `items` that `found` does not hold yet.
pub(crate) fn add_new(found: &mut Vec<String>, items: &Vec<String>)
    requires
        views(old(found)@).no_duplicates(),
    ensures
        views(final(found)@).no_duplicates(),
        views(final(found)@).to_set() == views(old(found)@).to_set() + views(items@).to_set(),
{
    let ghost start = views(found@).to_set();
    let ghost rs = views(items@);
    let mut i: usize = 0;
    assert(rs.take(0).to_set() =~= Set::<Seq<char>>::empty());
    assert(views(found@).to_set() =~= start + rs.take(0).to_set());
    while i < items.len()
        invariant
            i <= items@.len(),
            rs == views(items@),
            views(found@).no_duplicates(),
            views(found@).to_set() == start + rs.take(i as int).to_set(),
        decreases items@.len() - i,
    {
        let ghost before = views(found@);
        assert(rs.take(i + 1) =~= rs.take(i as int).push(rs[i as int]));
        proof {
            rs.take(i as int).lemma_push_to_set_commute(rs[i as int]);
        }
        if !holds(found, &items[i]) {
            found.push(items[i].clone());
            assert(views(found@) =~= before.push(rs[i as int]));
            proof {
                before.lemma_push_to_set_commute(rs[i as int]);
            }
            assert(views(found@).to_set() =~= start + rs.take(i + 1).to_set());
        } else {
            assert(views(found@).to_set() =~= start + rs.take(i + 1).to_set());
        }
        i = i + 1;
    }
    assert(rs.take(i as int) =~= rs);
}

/// The distinct lowercased local-parts under `domain` addressed by the
/// message's "To" headers, all of them taken together; each appears once, where
/// it first occurs.
pub fn extract_recipients(message: &MailMessage, domain: &str) -> (r: Result<
    Vec<String>,
    RecipientError,
>)
    ensures
        match message_recipients(*message, domain@) {
            Some(rs) => r is Ok && views(r->Ok_0@).no_duplicates() && views(r->Ok_0@).to_set()
                == rs.to_set(),
            None => r == Err::<Vec<String>, RecipientError>(RecipientError::NoHeaders),
        },
{
    let headers = match &message.headers {
        Some(hs) => hs,
        None => {
            return Err(RecipientError::NoHeaders);
        },
    };
    let mut recipients: Vec<String> = Vec::new();
    let mut i: usize = 0;
    assert(views(recipients@) =~= Seq::<Seq<char>>::empty());
    assert(headers@.take(0) =~= Seq::<Header>::empty());
    while i < headers.len()
        invariant
            i <= headers@.len(),
            message.headers == Some(*headers),
            views(recipients@).no_duplicates(),
            views(recipients@).to_set() == headers_recipients(
                headers@.take(i as int),
                domain@,
            ).to_set(),
        decreases headers@.len() - i,
    {
        let header = &headers[i];
        assert(headers@.take(i + 1).drop_last() =~= headers@.take(i as int));
        let ghost before = recipients@;
        match (&header.name, &header.value) {
            (Some(name), Some(value)) => {
                if names_to(name) {
                    let found = parse_email_addresses(value.as_str(), domain);
                    add_new(&mut recipients, &found);
                    proof {
                        vstd::seq_lib::seq_to_set_distributes_over_add(
                            headers_recipients(headers@.take(i as int), domain@),
                            views(found@),
                        );
                    }
                }
            },
            _ => {},
        }
        i = i + 1;
    }
    assert(headers@.take(i as int) =~= headers@);
    Ok(recipients)
}

} // verus!
