//! Status reporting: the notification listener's state and each mail
//! account's polling state. The table of account states decides when a
//! change must be broadcast (only when the state actually changes) and lists
//! the states in account-id order; the application holds it behind a lock
//! and emits the events.

use vstd::prelude::*;

use crate::i18n::{email_config_incomplete, is_en_lang};
use crate::monitor::accounts_view;
use crate::settings::{account_complete, EmailAccount};
use crate::text::{chars_of, lex_lt, sorted_order, string_from_chars, string_of};

verus! {

/// The notification listener's state: starting, running, paused,
/// access_denied, unsupported or error, with an optional message.
#[derive(Clone, Debug)]
pub struct ListenerState {
    pub state: String,
    pub message: Option<String>,
}

impl ListenerState {
    pub fn new(state: &str, message: Option<String>) -> (r: Self)
        ensures
            r.state@ == state@,
            r.message == message,
    {
        ListenerState { state: string_of(state), message }
    }
}

impl Default for ListenerState {
    fn default() -> (r: Self)
        ensures
            r.state@ == "starting"@,
            r.message is None,
    {
        ListenerState::new("starting", None)
    }
}

/// One mail account's polling state: disabled (not enabled or incomplete),
/// running, paused or error (with the latest failure as message).
#[derive(Clone, Debug, PartialEq)]
pub struct EmailState {
    pub state: String,
    pub message: Option<String>,
}

/// A state as plain values.
pub type StateView = (Seq<char>, Option<Seq<char>>);

impl View for EmailState {
    type V = StateView;

    open spec fn view(&self) -> StateView {
        (self.state@, self.message.deep_view())
    }
}

impl EmailState {
    pub fn new(state: &str, message: Option<String>) -> (r: Self)
        ensures
            r.state@ == state@,
            r.message == message,
    {
        EmailState { state: string_of(state), message }
    }
}

impl Default for EmailState {
    fn default() -> (r: Self)
        ensures
            r.state@ == "disabled"@,
            r.message is None,
    {
        EmailState::new("disabled", None)
    }
}

/// A mail account's state with its account id (the element of the
/// `email-status` event and of `get_email_status`).
#[derive(Clone, Debug, PartialEq)]
pub struct EmailAccountStatus {
    pub account_id: String,
    pub state: String,
    pub message: Option<String>,
}

/// The polling state of every mail account, keyed by account id.
pub struct EmailStatusTable {
    entries: Vec<(String, EmailState)>,
}

/// The entries as plain values.
pub open spec fn entries_view(e: Seq<(String, EmailState)>) -> Seq<(Seq<char>, StateView)> {
    e.map_values(|p: (String, EmailState)| (p.0@, p.1@))
}

/// The map of a list of entries with distinct keys.
pub open spec fn entries_map(e: Seq<(Seq<char>, StateView)>) -> Map<Seq<char>, StateView>
    decreases e.len(),
{
    if e.len() == 0 {
        Map::empty()
    } else {
        entries_map(e.drop_last()).insert(e.last().0, e.last().1)
    }
}

/// No key occurs twice.
pub open spec fn distinct_keys(e: Seq<(Seq<char>, StateView)>) -> bool {
    forall|a: int, b: int| 0 <= a < b < e.len() ==> e[a].0 != e[b].0
}

proof fn lemma_entries_map_index(e: Seq<(Seq<char>, StateView)>, i: int)
    requires
        distinct_keys(e),
        0 <= i < e.len(),
    ensures
        entries_map(e).contains_key(e[i].0),
        entries_map(e)[e[i].0] == e[i].1,
    decreases e.len(),
{
    if i < e.len() - 1 {
        lemma_entries_map_index(e.drop_last(), i);
    }
}

proof fn lemma_entries_map_keys(e: Seq<(Seq<char>, StateView)>, k: Seq<char>)
    ensures
        entries_map(e).contains_key(k) <==> exists|i: int| 0 <= i < e.len() && (#[trigger] e[i]).0 == k,
    decreases e.len(),
{
    if e.len() > 0 {
        lemma_entries_map_keys(e.drop_last(), k);
        if exists|i: int| 0 <= i < e.drop_last().len() && (#[trigger] e.drop_last()[i]).0 == k {
            let i = choose|i: int| 0 <= i < e.drop_last().len() && (#[trigger] e.drop_last()[i]).0 == k;
            assert(e[i].0 == k);
        }
        if exists|i: int| 0 <= i < e.len() && (#[trigger] e[i]).0 == k {
            let i = choose|i: int| 0 <= i < e.len() && (#[trigger] e[i]).0 == k;
            if i < e.len() - 1 {
                assert(e.drop_last()[i].0 == k);
            }
        }
    }
}

/// The map after replacing entry `i`'s state.
proof fn lemma_entries_map_update(e: Seq<(Seq<char>, StateView)>, i: int, v: StateView)
    requires
        distinct_keys(e),
        0 <= i < e.len(),
    ensures
        distinct_keys(e.update(i, (e[i].0, v))),
        entries_map(e.update(i, (e[i].0, v))) == entries_map(e).insert(e[i].0, v),
    decreases e.len(),
{
    let e2 = e.update(i, (e[i].0, v));
    if i < e.len() - 1 {
        lemma_entries_map_update(e.drop_last(), i, v);
        assert(e2.drop_last() =~= e.drop_last().update(i, (e[i].0, v)));
        assert(entries_map(e2) =~= entries_map(e).insert(e[i].0, v));
    } else {
        assert(e2.drop_last() =~= e.drop_last());
        lemma_entries_map_keys(e.drop_last(), e[i].0);
        assert(entries_map(e2) =~= entries_map(e).insert(e[i].0, v));
    }
}

/// The map after removing entry `i`.
proof fn lemma_entries_map_remove(e: Seq<(Seq<char>, StateView)>, i: int)
    requires
        distinct_keys(e),
        0 <= i < e.len(),
    ensures
        distinct_keys(e.remove(i)),
        entries_map(e.remove(i)) == entries_map(e).remove(e[i].0),
    decreases e.len(),
{
    let e2 = e.remove(i);
    if i < e.len() - 1 {
        lemma_entries_map_remove(e.drop_last(), i);
        assert(e2.drop_last() =~= e.drop_last().remove(i));
        assert(e2.last() == e.last());
        assert(entries_map(e2) =~= entries_map(e).remove(e[i].0));
    } else {
        assert(e2 =~= e.drop_last());
        lemma_entries_map_keys(e.drop_last(), e[i].0);
        assert(entries_map(e2) =~= entries_map(e).remove(e[i].0));
    }
}

/// Setting a state makes it the account's state, and setting the same state
/// again changes nothing (so `set` reports no change and nothing is
/// broadcast twice).
pub proof fn lemma_status_set_twice(m: Map<Seq<char>, StateView>, id: Seq<char>, v: StateView)
    ensures
        m.insert(id, v).contains_key(id),
        m.insert(id, v)[id] == v,
        m.insert(id, v).insert(id, v) == m.insert(id, v),
{
    assert(m.insert(id, v).insert(id, v) =~= m.insert(id, v));
}

impl View for EmailStatusTable {
    type V = Map<Seq<char>, StateView>;

    closed spec fn view(&self) -> Map<Seq<char>, StateView> {
        entries_map(entries_view(self.entries@))
    }
}

impl EmailStatusTable {
    #[verifier::type_invariant]
    closed spec fn keys_distinct(self) -> bool {
        distinct_keys(entries_view(self.entries@))
    }

    /// The number of accounts with a state.
    pub closed spec fn len_spec(self) -> nat {
        self.entries@.len()
    }

    /// An empty table.
    pub fn new() -> (r: Self)
        ensures
            r@ == Map::<Seq<char>, StateView>::empty(),
    {
        EmailStatusTable { entries: Vec::new() }
    }

    fn position(&self, id: &str) -> (r: Option<usize>)
        ensures
            match r {
                Some(i) => i < self.entries@.len() && self.entries@[i as int].0@ == id@,
                None => forall|k: int| 0 <= k < self.entries@.len() ==> self.entries@[k].0@ != id@,
            },
    {
        let key = string_of(id);
        let mut i: usize = 0;
        while i < self.entries.len()
            invariant
                i <= self.entries@.len(),
                key@ == id@,
                forall|k: int| 0 <= k < i ==> self.entries@[k].0@ != id@,
            decreases self.entries.len() - i,
        {
            if self.entries[i].0 == key {
                return Some(i);
            }
            i = i + 1;
        }
        None
    }

    /// The state of account `id`, if it has one.
    pub fn get(&self, id: &str) -> (r: Option<&EmailState>)
        ensures
            match r {
                Some(s) => self@.contains_key(id@) && self@[id@] == s@,
                None => !self@.contains_key(id@),
            },
    {
        proof {
            use_type_invariant(self);
        }
        let ghost ev = entries_view(self.entries@);
        match self.position(id) {
            Some(i) => {
                proof {
                    assert(ev[i as int].0 == id@);
                    lemma_entries_map_index(ev, i as int);
                }
                Some(&self.entries[i].1)
            },
            None => {
                proof {
                    lemma_entries_map_keys(ev, id@);
                    if self@.contains_key(id@) {
                        let k = choose|k: int| 0 <= k < ev.len() && (#[trigger] ev[k]).0 == id@;
                        assert(self.entries@[k].0@ == id@);
                    }
                }
                None
            },
        }
    }

    /// Sets account `id`'s state. Returns whether anything changed: setting
    /// the state an account already has changes nothing and needs no
    /// broadcast.
    pub fn set(&mut self, id: &str, state: &str, message: Option<String>) -> (changed: bool)
        ensures
            final(self)@ == old(self)@.insert(id@, (state@, message.deep_view())),
            changed == !(old(self)@.contains_key(id@) && old(self)@[id@] == (
                state@,
                message.deep_view(),
            )),
    {
        proof {
            use_type_invariant(&*self);
        }
        let ghost ev = entries_view(self.entries@);
        let ghost v: StateView = (state@, message.deep_view());
        let new_state = EmailState::new(state, message);
        assert(new_state@ == v);
        match self.position(id) {
            Some(i) => {
                proof {
                    assert(ev[i as int].0 == id@);
                    lemma_entries_map_index(ev, i as int);
                }
                let cur = &self.entries[i].1;
                let same_state = cur.state == new_state.state;
                let same_message = match (&cur.message, &new_state.message) {
                    (Some(a), Some(b)) => *a == *b,
                    (None, None) => true,
                    _ => false,
                };
                if same_state && same_message {
                    proof {
                        assert(old(self)@ =~= old(self)@.insert(id@, v));
                    }
                    return false;
                }
                let key = self.entries[i].0.clone();
                proof {
                    lemma_entries_map_update(ev, i as int, v);
                }
                let mut e: Vec<(String, EmailState)> = Vec::new();
                std::mem::swap(&mut e, &mut self.entries);
                e.set(i, (key, new_state));
                assert(entries_view(e@) =~= ev.update(i as int, (ev[i as int].0, v)));
                self.entries = e;
                true
            },
            None => {
                let ghost old_entries = self.entries@;
                let mut e: Vec<(String, EmailState)> = Vec::new();
                std::mem::swap(&mut e, &mut self.entries);
                e.push((string_of(id), new_state));
                proof {
                    lemma_entries_map_keys(ev, id@);
                    assert(entries_view(e@) =~= ev.push((id@, v)));
                    assert(entries_view(e@).drop_last() =~= ev);
                    if old(self)@.contains_key(id@) {
                        let k = choose|k: int| 0 <= k < ev.len() && (#[trigger] ev[k]).0 == id@;
                        assert(old_entries[k].0@ == id@);
                    }
                    assert forall|a: int, b: int| 0 <= a < b < entries_view(e@).len() implies entries_view(e@)[a].0 != entries_view(e@)[b].0 by {
                        if b == ev.len() {
                            assert(old_entries[a].0@ != id@);
                        }
                    }
                }
                self.entries = e;
                true
            },
        }
    }

    /// Removes account `id`'s state; returns whether it had one (only then is
    /// a broadcast needed).
    pub fn remove(&mut self, id: &str) -> (removed: bool)
        ensures
            final(self)@ == old(self)@.remove(id@),
            removed == old(self)@.contains_key(id@),
    {
        proof {
            use_type_invariant(&*self);
        }
        let ghost ev = entries_view(self.entries@);
        match self.position(id) {
            Some(i) => {
                proof {
                    assert(ev[i as int].0 == id@);
                    lemma_entries_map_index(ev, i as int);
                    lemma_entries_map_remove(ev, i as int);
                }
                let mut e: Vec<(String, EmailState)> = Vec::new();
                std::mem::swap(&mut e, &mut self.entries);
                e.remove(i);
                assert(entries_view(e@) =~= ev.remove(i as int));
                self.entries = e;
                true
            },
            None => {
                proof {
                    lemma_entries_map_keys(ev, id@);
                    if old(self)@.contains_key(id@) {
                        let k = choose|k: int| 0 <= k < ev.len() && (#[trigger] ev[k]).0 == id@;
                        assert(self.entries@[k].0@ == id@);
                    }
                    assert(old(self)@ =~= old(self)@.remove(id@));
                }
                false
            },
        }
    }

    /// The ids that have a state.
    pub fn ids(&self) -> (r: Vec<String>)
        ensures
            r@.len() == self@.dom().len(),
            forall|k: Seq<char>| #[trigger] self@.contains_key(k) <==> r@.map_values(|s: String| s@).contains(k),
    {
        proof {
            use_type_invariant(self);
        }
        let ghost ev = entries_view(self.entries@);
        let mut r: Vec<String> = Vec::new();
        let mut i: usize = 0;
        while i < self.entries.len()
            invariant
                i <= self.entries@.len(),
                ev == entries_view(self.entries@),
                r@.len() == i,
                forall|k: int| 0 <= k < i ==> (#[trigger] r@[k])@ == ev[k].0,
            decreases self.entries.len() - i,
        {
            r.push(self.entries[i].0.clone());
            i = i + 1;
        }
        proof {
            let rv = r@.map_values(|s: String| s@);
            assert forall|k: Seq<char>| #[trigger] self@.contains_key(k) <==> rv.contains(k) by {
                lemma_entries_map_keys(ev, k);
                if self@.contains_key(k) {
                    let j = choose|j: int| 0 <= j < ev.len() && (#[trigger] ev[j]).0 == k;
                    assert(rv[j] == k);
                }
                if rv.contains(k) {
                    let j = choose|j: int| 0 <= j < rv.len() && rv[j] == k;
                    assert(ev[j].0 == k);
                }
            }
            lemma_entries_map_dom_len(ev);
        }
        r
    }

    /// Every account's state, in ascending order of account id.
    pub fn sorted_list(&self) -> (r: Vec<EmailAccountStatus>)
        ensures
            r@.len() == self@.dom().len(),
            forall|a: int, b: int| 0 <= a < b < r@.len() ==> lex_lt(r@[a].account_id@, r@[b].account_id@),
            forall|a: int|
                0 <= a < r@.len() ==> self@.contains_key((#[trigger] r@[a]).account_id@) && self@[r@[a].account_id@]
                    == (r@[a].state@, r@[a].message.deep_view()),
            forall|k: Seq<char>| #[trigger] self@.contains_key(k) ==> exists|a: int| 0 <= a < r@.len() && (#[trigger] r@[a]).account_id@ == k,
    {
        proof {
            use_type_invariant(self);
        }
        let ghost ev = entries_view(self.entries@);
        let mut keys: Vec<Vec<char>> = Vec::new();
        let mut i: usize = 0;
        while i < self.entries.len()
            invariant
                i <= self.entries@.len(),
                ev == entries_view(self.entries@),
                keys@.len() == i,
                forall|k: int| 0 <= k < i ==> (#[trigger] keys@[k])@ == ev[k].0,
            decreases self.entries.len() - i,
        {
            keys.push(chars_of(self.entries[i].0.as_str()));
            i = i + 1;
        }
        assert forall|a: int, b: int| 0 <= a < b < keys@.len() implies keys@[a]@ != keys@[b]@ by {
            assert(keys@[a]@ == ev[a].0);
            assert(keys@[b]@ == ev[b].0);
        }
        let order = sorted_order(&keys);
        let mut r: Vec<EmailAccountStatus> = Vec::new();
        let mut q: usize = 0;
        while q < order.len()
            invariant
                q <= order@.len(),
                order@.len() == keys@.len(),
                keys@.len() == self.entries@.len(),
                ev == entries_view(self.entries@),
                forall|k: int| 0 <= k < keys@.len() ==> (#[trigger] keys@[k])@ == ev[k].0,
                forall|k: int| 0 <= k < order@.len() ==> #[trigger] order@[k] < keys@.len(),
                forall|a: int, b: int|
                    0 <= a < b < order@.len() ==> lex_lt(keys@[order@[a] as int]@, keys@[order@[b] as int]@),
                r@.len() == q,
                forall|k: int|
                    0 <= k < q ==> (#[trigger] r@[k]).account_id@ == ev[order@[k] as int].0 && (
                    r@[k].state@, r@[k].message.deep_view()) == ev[order@[k] as int].1,
            decreases order.len() - q,
        {
            let e = &self.entries[order[q]];
            let message = match &e.1.message {
                Some(m) => Some(m.clone()),
                None => None,
            };
            r.push(EmailAccountStatus { account_id: e.0.clone(), state: e.1.state.clone(), message });
            q = q + 1;
        }
        proof {
            assert forall|a: int, b: int| 0 <= a < b < r@.len() implies lex_lt(r@[a].account_id@, r@[b].account_id@) by {
                assert(keys@[order@[a] as int]@ == ev[order@[a] as int].0);
                assert(keys@[order@[b] as int]@ == ev[order@[b] as int].0);
            }
            assert forall|a: int| 0 <= a < r@.len() implies self@.contains_key((#[trigger] r@[a]).account_id@)
                && self@[r@[a].account_id@] == (r@[a].state@, r@[a].message.deep_view()) by {
                lemma_entries_map_index(ev, order@[a] as int);
            }
            assert forall|k: Seq<char>| #[trigger] self@.contains_key(k) implies exists|a: int|
                0 <= a < r@.len() && (#[trigger] r@[a]).account_id@ == k by {
                lemma_entries_map_keys(ev, k);
                let j = choose|j: int| 0 <= j < ev.len() && (#[trigger] ev[j]).0 == k;
                assert(order@.contains(j as usize));
                let p = choose|p: int| 0 <= p < order@.len() && order@[p] == j as usize;
                assert(r@[p].account_id@ == k);
            }
            lemma_entries_map_dom_len(ev);
        }
        r
    }
}

proof fn lemma_entries_map_dom_len(e: Seq<(Seq<char>, StateView)>)
    requires
        distinct_keys(e),
    ensures
        entries_map(e).dom().len() == e.len(),
        entries_map(e).dom().finite(),
    decreases e.len(),
{
    if e.len() > 0 {
        lemma_entries_map_dom_len(e.drop_last());
        lemma_entries_map_keys(e.drop_last(), e.last().0);
        if entries_map(e.drop_last()).contains_key(e.last().0) {
            let i = choose|i: int| 0 <= i < e.drop_last().len() && (#[trigger] e.drop_last()[i]).0 == e.last().0;
            assert(e[i].0 == e[e.len() - 1].0);
        }
    } else {
        assert(entries_map(e).dom() =~= Set::<Seq<char>>::empty());
    }
}

} // verus!
