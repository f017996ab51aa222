//! Requests that are still being answered, per server, method, file and
//! client. At most two are kept for each: the oldest, whose answer is still
//! wanted, and the youngest. A newer request replaces the youngest, which is
//! then canceled.

use vstd::prelude::*;
use crate::strings::str_eq;

verus! {

/// What requests are kept apart by.
pub struct OutstandingKey {
    pub server: usize,
    pub method: String,
    pub buffile: String,
    pub client: Option<String>,
}

/// A key as values.
pub struct KeyView {
    pub server: usize,
    pub method: Seq<char>,
    pub buffile: Seq<char>,
    pub client: Option<Seq<char>>,
}

pub open spec fn client_view(c: Option<String>) -> Option<Seq<char>> {
    match c {
        Some(s) => Some(s@),
        None => None,
    }
}

impl OutstandingKey {
    pub open spec fn view(&self) -> KeyView {
        KeyView { server: self.server, method: self.method@, buffile: self.buffile@, client: client_view(self.client) }
    }
}

/// The oldest and the youngest request still being answered for one key.
#[derive(Clone, Copy, Debug, PartialEq, Eq, Structural)]
pub struct OutstandingRequests {
    pub oldest: Option<u64>,
    pub youngest: Option<u64>,
}

/// A key's requests are well formed: there is a youngest only beside an
/// oldest.
pub open spec fn slot_wf(s: OutstandingRequests) -> bool {
    s.youngest is Some ==> s.oldest is Some
}

/// A new request `id` for a key whose requests were `slot` (`None`: the key
/// has no entry): the key's requests after it, and the request to cancel.
pub open spec fn add_step(slot: Option<OutstandingRequests>, id: u64) -> (OutstandingRequests, Option<u64>) {
    match slot {
        None => (OutstandingRequests { oldest: Some(id), youngest: None }, None),
        Some(s) => if s.oldest is None {
            (OutstandingRequests { oldest: Some(id), youngest: s.youngest }, None)
        } else {
            (OutstandingRequests { oldest: s.oldest, youngest: Some(id) }, s.youngest)
        },
    }
}

/// The answer to request `id` came for a key whose requests were `slot`:
/// the key's requests after it, or `None` where `id` was not among them.
pub open spec fn remove_step(slot: Option<OutstandingRequests>, id: u64) -> Option<OutstandingRequests> {
    match slot {
        None => None,
        Some(s) => if s.youngest == Some(id) {
            Some(OutstandingRequests { oldest: s.oldest, youngest: None })
        } else if s.oldest == Some(id) {
            Some(OutstandingRequests { oldest: s.youngest, youngest: None })
        } else {
            None
        },
    }
}

/// The table: each key once, with its requests.
pub struct OutstandingTable {
    entries: Vec<(OutstandingKey, OutstandingRequests)>,
}

pub open spec fn entries_view(t: Seq<(OutstandingKey, OutstandingRequests)>) -> Seq<(KeyView, OutstandingRequests)> {
    t.map_values(|e: (OutstandingKey, OutstandingRequests)| (e.0@, e.1))
}

impl OutstandingTable {
    pub closed spec fn view(&self) -> Seq<(KeyView, OutstandingRequests)> {
        entries_view(self.entries@)
    }

    /// No key stands twice, and every key's requests are well formed.
    #[verifier::type_invariant]
    spec fn well_formed(self) -> bool {
        keys_unique(entries_view(self.entries@)) && table_wf(entries_view(self.entries@))
    }
}

/// No key stands twice in the table.
pub open spec fn keys_unique(t: Seq<(KeyView, OutstandingRequests)>) -> bool {
    forall|i: int, j: int| 0 <= i < j < t.len() ==> t[i].0 != t[j].0
}

/// Where a key stands in the table: its first entry.
pub open spec fn find_entry(t: Seq<(KeyView, OutstandingRequests)>, k: KeyView) -> Option<int>
    decreases t.len(),
{
    if t.len() == 0 {
        None
    } else {
        match find_entry(t.drop_last(), k) {
            Some(i) => Some(i),
            None => if t.last().0 == k { Some(t.len() - 1) } else { None },
        }
    }
}

proof fn lemma_find_entry(t: Seq<(KeyView, OutstandingRequests)>, k: KeyView)
    ensures
        match find_entry(t, k) {
            Some(i) => 0 <= i < t.len() && t[i].0 == k && forall|j: int| 0 <= j < i ==> t[j].0 != k,
            None => forall|j: int| 0 <= j < t.len() ==> t[j].0 != k,
        },
    decreases t.len(),
{
    if t.len() > 0 {
        let d = t.drop_last();
        lemma_find_entry(d, k);
        assert forall|j: int| 0 <= j < d.len() implies d[j] == t[j] by {}
        match find_entry(d, k) {
            Some(i) => {
                assert(d[i] == t[i]);
            },
            None => {},
        }
    }
}

proof fn lemma_find_entry_is(t: Seq<(KeyView, OutstandingRequests)>, k: KeyView, i: int)
    requires
        0 <= i <= t.len(),
        i < t.len() ==> t[i].0 == k,
        forall|j: int| 0 <= j < i ==> t[j].0 != k,
    ensures
        find_entry(t, k) == (if i < t.len() { Some(i) } else { None::<int> }),
{
    lemma_find_entry(t, k);
}

/// A key's requests in the table.
pub open spec fn slot_of(t: Seq<(KeyView, OutstandingRequests)>, k: KeyView) -> Option<OutstandingRequests> {
    match find_entry(t, k) {
        Some(i) => Some(t[i].1),
        None => None,
    }
}

/// Every key's requests are well formed.
pub open spec fn table_wf(t: Seq<(KeyView, OutstandingRequests)>) -> bool {
    forall|i: int| 0 <= i < t.len() ==> slot_wf(#[trigger] t[i].1)
}

/// The table after a new request `id` for key `k`, and the request to cancel.
pub open spec fn table_add(t: Seq<(KeyView, OutstandingRequests)>, k: KeyView, id: u64) -> (Seq<(KeyView, OutstandingRequests)>, Option<u64>) {
    let (s, cancel) = add_step(slot_of(t, k), id);
    match find_entry(t, k) {
        Some(i) => (t.update(i, (k, s)), cancel),
        None => (t.push((k, s)), cancel),
    }
}

/// The table after the answer to request `id` for key `k`, or `None` where
/// that request was not outstanding (the table is then left as it was).
pub open spec fn table_remove(t: Seq<(KeyView, OutstandingRequests)>, k: KeyView, id: u64) -> Option<Seq<(KeyView, OutstandingRequests)>> {
    match find_entry(t, k) {
        None => None,
        Some(i) => match remove_step(Some(t[i].1), id) {
            None => None,
            Some(s) => Some(t.update(i, (k, s))),
        },
    }
}

fn key_eq(a: &OutstandingKey, b: &OutstandingKey) -> (res: bool)
    ensures
        res == (a@ == b@),
{
    if a.server != b.server || !str_eq(a.method.as_str(), b.method.as_str()) || !str_eq(a.buffile.as_str(), b.buffile.as_str()) {
        return false;
    }
    match (&a.client, &b.client) {
        (Some(x), Some(y)) => str_eq(x.as_str(), y.as_str()),
        (None, None) => true,
        _ => false,
    }
}

fn find_index(table: &OutstandingTable, key: &OutstandingKey) -> (res: Option<usize>)
    ensures
        match res {
            Some(i) => find_entry(table@, key@) == Some(i as int) && i < table.entries.len(),
            None => find_entry(table@, key@) is None,
        },
{
    let mut i: usize = 0;
    let mut found = false;
    while i < table.entries.len() && !found
        invariant
            i <= table.entries.len(),
            forall|j: int| 0 <= j < i ==> table@[j].0 != key@,
            found ==> i < table.entries.len() && table@[i as int].0 == key@,
        decreases 2 * (table.entries.len() - i) + (if found { 0int } else { 1int }),
    {
        if key_eq(&table.entries[i].0, key) {
            found = true;
        } else {
            i += 1;
        }
    }
    proof {
        lemma_find_entry_is(table@, key@, i as int);
    }
    if found { Some(i) } else { None }
}

fn add_slot(slot: Option<OutstandingRequests>, id: u64) -> (res: (OutstandingRequests, Option<u64>))
    ensures
        res == add_step(slot, id),
{
    match slot {
        None => (OutstandingRequests { oldest: Some(id), youngest: None }, None),
        Some(s) => if s.oldest.is_none() {
            (OutstandingRequests { oldest: Some(id), youngest: s.youngest }, None)
        } else {
            (OutstandingRequests { oldest: s.oldest, youngest: Some(id) }, s.youngest)
        },
    }
}

impl OutstandingTable {
    /// How many keys the table holds.
    pub fn len(&self) -> (res: usize)
        ensures
            res == self@.len(),
    {
        self.entries.len()
    }

    /// A key's requests, where it has an entry.
    pub fn slot(&self, key: &OutstandingKey) -> (res: Option<OutstandingRequests>)
        ensures
            res == slot_of(self@, key@),
    {
        match find_index(self, key) {
            Some(i) => {
                assert(self@[i as int].1 == self.entries@[i as int].1);
                Some(self.entries[i].1)
            },
            None => None,
        }
    }

    /// An empty table.
    pub fn new() -> (res: Self)
        ensures
            res@ == Seq::<(KeyView, OutstandingRequests)>::empty(),
    {
        OutstandingTable { entries: Vec::new() }
    }
}

/// Records a new request `id` for `key`, and returns the request it
/// replaces, which is to be canceled: the youngest, where the key already
/// had an oldest.
pub fn add_outstanding_request(table: &mut OutstandingTable, key: OutstandingKey, id: u64) -> (cancel: Option<u64>)
    ensures
        (final(table)@, cancel) == table_add(old(table)@, key@, id),
{
    proof {
        use_type_invariant(&*table);
    }
    let found = find_index(table, &key);
    let ghost k = key@;
    let ghost t = table@;
    let mut entries: Vec<(OutstandingKey, OutstandingRequests)> = Vec::new();
    std::mem::swap(&mut entries, &mut table.entries);
    let ghost before = entries@;
    assert(entries_view(before) == t);
    let cancel = match found {
        Some(i) => {
            let (s, cancel) = add_slot(Some(entries[i].1), id);
            entries.set(i, (key, s));
            proof {
                assert(entries_view(entries@) =~= t.update(i as int, (k, s)));
            }
            cancel
        }
        None => {
            let (s, cancel) = add_slot(None, id);
            entries.push((key, s));
            proof {
                assert(entries_view(entries@) =~= t.push((k, s)));
            }
            cancel
        }
    };
    proof {
        lemma_find_entry(t, k);
        lemma_outstanding_wf(t, k, id);
        let t2 = entries_view(entries@);
        assert(t2 == table_add(t, k, id).0);
        assert forall|a: int, b: int| 0 <= a < b < t2.len() implies t2[a].0 != t2[b].0 by {
            if b < t.len() && a < t.len() {
                assert(t2[a].0 == t[a].0 || t2[a].0 == k);
            }
        }
    }
    table.entries = entries;
    cancel
}

/// Records the answer to request `id` for `key`: whether that request was
/// outstanding. Where it was not, the table stays as it was.
pub fn remove_outstanding_request(table: &mut OutstandingTable, key: OutstandingKey, id: u64) -> (found: bool)
    ensures
        match table_remove(old(table)@, key@, id) {
            Some(t) => found && final(table)@ == t,
            None => !found && final(table)@ == old(table)@,
        },
{
    proof {
        use_type_invariant(&*table);
    }
    let ghost t = table@;
    let ghost k = key@;
    match find_index(table, &key) {
        None => false,
        Some(i) => {
            let s = table.entries[i].1;
            assert(t[i as int].1 == s);
            let next = if s.youngest == Some(id) {
                OutstandingRequests { oldest: s.oldest, youngest: None }
            } else if s.oldest == Some(id) {
                OutstandingRequests { oldest: s.youngest, youngest: None }
            } else {
                return false;
            };
            let mut entries: Vec<(OutstandingKey, OutstandingRequests)> = Vec::new();
            std::mem::swap(&mut entries, &mut table.entries);
            assert(entries_view(entries@) == t);
            entries.set(i, (key, next));
            proof {
                assert(entries_view(entries@) =~= t.update(i as int, (k, next)));
                lemma_find_entry(t, k);
                lemma_outstanding_wf(t, k, id);
                let t2 = entries_view(entries@);
                assert forall|a: int, b: int| 0 <= a < b < t2.len() implies t2[a].0 != t2[b].0 by {
                    assert(t2[a].0 == t[a].0);
                    assert(t2[b].0 == t[b].0);
                }
            }
            table.entries = entries;
            true
        }
    }
}

/// Adding a request keeps every key's requests well formed, and so does
/// the answer to one.
pub proof fn lemma_outstanding_wf(t: Seq<(KeyView, OutstandingRequests)>, k: KeyView, id: u64)
    requires
        table_wf(t),
    ensures
        table_wf(table_add(t, k, id).0),
        table_remove(t, k, id) is Some ==> table_wf(table_remove(t, k, id).unwrap()),
{
    lemma_find_entry(t, k);
}

/// A new request for a key that already has two leaves the oldest in place
/// and cancels the youngest; no key ever has more than two.
pub proof fn lemma_third_request_cancels_youngest(t: Seq<(KeyView, OutstandingRequests)>, k: KeyView, id: u64, o: u64, y: u64)
    requires
        slot_of(t, k) == Some(OutstandingRequests { oldest: Some(o), youngest: Some(y) }),
    ensures
        table_add(t, k, id).1 == Some(y),
        slot_of(table_add(t, k, id).0, k) == Some(OutstandingRequests { oldest: Some(o), youngest: Some(id) }),
{
    lemma_find_entry(t, k);
    let i = find_entry(t, k).unwrap();
    let t2 = table_add(t, k, id).0;
    lemma_find_entry_is(t2, k, i);
}

/// The answer to a request just added leaves the key's oldest request as it
/// was before, and no youngest one.
pub proof fn lemma_add_then_answer(t: Seq<(KeyView, OutstandingRequests)>, k: KeyView, id: u64)
    requires
        table_wf(t),
    ensures
        table_remove(table_add(t, k, id).0, k, id) is Some,
        slot_of(table_remove(table_add(t, k, id).0, k, id).unwrap(), k) == Some(OutstandingRequests {
            oldest: match slot_of(t, k) {
                Some(s) => s.oldest,
                None => None,
            },
            youngest: None,
        }),
{
    lemma_find_entry(t, k);
    let t2 = table_add(t, k, id).0;
    match find_entry(t, k) {
        Some(i) => {
            lemma_find_entry_is(t2, k, i);
            let t3 = table_remove(t2, k, id).unwrap();
            lemma_find_entry_is(t3, k, i);
        }
        None => {
            let i = t.len() as int;
            lemma_find_entry_is(t2, k, i);
            let t3 = table_remove(t2, k, id).unwrap();
            lemma_find_entry_is(t3, k, i);
        }
    }
}

} // verus!
