//! Decisions of the mail monitor: which account workers to start and stop,
//! what a POP3 poll fetches, where IMAP synchronisation resumes, how long to
//! back off after a failure, and what a mail turns into in the history.
//! The threads, sockets and timers are the application's part; each step of
//! their loops asks one of these functions what to do.
//!
//! Duplicate suppression: POP3 accounts remember the UIDLs they have seen;
//! the first poll only marks the mail present as seen (a baseline) so that
//! enabling an account does not import old mail. IMAP accounts remember
//! (UIDVALIDITY, highest UID handled); a first connection or a changed
//! UIDVALIDITY only records the baseline UIDNEXT - 1.

use vstd::prelude::*;

use crate::mail::ParsedMail;
use crate::parser::{extract_code, extracted_code};
use crate::settings::{account_complete, account_identity, AccountView, EmailAccount};
use crate::i18n::{email_config_incomplete, is_en_lang};
use crate::state::{EmailState, StateView};
use crate::storage::{baseline_uidl, baseline_uidl_string, PendingRecord};
use crate::text::{
    append_str, chars_eq, chars_lt, chars_of, lemma_lex_lt_irreflexive, lemma_lex_lt_transitive, lex_lt,
    sorted_order, str_eq, string_from_chars,
    string_of, subvec,
};

verus! {

/// At most this many mails are fetched in one poll or synchronisation round.
pub const MAX_PER_POLL: usize = 50;

/* ---------- worker reconciliation ---------- */

/// What the supervisor does about one account's worker.
#[derive(Debug, PartialEq)]
pub enum AccountAction {
    /// A new or changed account: start (or restart) its worker.
    Spawn(EmailAccount),
    /// A removed or no longer runnable account: stop its worker.
    Stop(String),
}

/// An action as plain values.
pub enum ActionView {
    Spawn(AccountView),
    Stop(Seq<char>),
}

impl View for AccountAction {
    type V = ActionView;

    open spec fn view(&self) -> ActionView {
        match self {
            AccountAction::Spawn(a) => ActionView::Spawn(a@),
            AccountAction::Stop(id) => ActionView::Stop(id@),
        }
    }
}

/// An account gets a worker when it is enabled and complete.
pub open spec fn runnable(a: AccountView) -> bool {
    a.enabled && account_complete(a)
}

/// The running workers' configurations, keyed by account id.
pub open spec fn running_map(running: Seq<(Seq<char>, AccountView)>) -> Map<Seq<char>, AccountView>
    decreases running.len(),
{
    if running.len() == 0 {
        Map::empty()
    } else {
        running_map(running.drop_last()).insert(running.last().0, running.last().1)
    }
}

/// `a` needs a worker started: it is runnable and no worker runs with exactly
/// its configuration.
pub open spec fn needs_spawn(a: AccountView, m: Map<Seq<char>, AccountView>) -> bool {
    runnable(a) && !(m.contains_key(a.id) && m[a.id] == a)
}

/// The accounts to start, in the order of `desired`.
pub open spec fn spawn_list(desired: Seq<AccountView>, m: Map<Seq<char>, AccountView>) -> Seq<AccountView>
    decreases desired.len(),
{
    if desired.len() == 0 {
        Seq::empty()
    } else {
        spawn_list(desired.drop_last(), m) + if needs_spawn(desired.last(), m) {
            seq![desired.last()]
        } else {
            Seq::empty()
        }
    }
}

/// Some runnable account in `desired` has id `id`.
pub open spec fn wanted(desired: Seq<AccountView>, id: Seq<char>) -> bool {
    exists|j: int| 0 <= j < desired.len() && (#[trigger] desired[j]).id == id && runnable(desired[j])
}

/// The key of a stop action.
pub open spec fn stop_key(a: ActionView) -> Seq<char> {
    match a {
        ActionView::Stop(k) => k,
        ActionView::Spawn(c) => c.id,
    }
}

/// `actions` is the reconciliation of the running workers `m` towards the
/// runnable accounts of `desired`: first a start for each runnable account
/// whose worker is missing or runs another configuration, in the order of
/// `desired`; then a stop for each running worker whose id no runnable
/// account has, in ascending order of id.
pub open spec fn reconciled(
    desired: Seq<AccountView>,
    m: Map<Seq<char>, AccountView>,
    actions: Seq<ActionView>,
) -> bool {
    let s = spawn_list(desired, m);
    &&& actions.len() >= s.len()
    &&& forall|i: int| 0 <= i < s.len() ==> actions[i] == ActionView::Spawn(#[trigger] s[i])
    &&& forall|i: int| s.len() <= i < actions.len() ==> (#[trigger] actions[i]) is Stop
    &&& forall|i: int, j: int|
        s.len() <= i < j < actions.len() ==> lex_lt(
            stop_key(#[trigger] actions[i]),
            stop_key(#[trigger] actions[j]),
        )
    &&& forall|i: int|
        s.len() <= i < actions.len() ==> m.contains_key(stop_key(#[trigger] actions[i])) && !wanted(
            desired,
            stop_key(actions[i]),
        )
    &&& forall|k: Seq<char>|
        #[trigger] m.contains_key(k) && !wanted(desired, k) ==> exists|i: int|
            s.len() <= i < actions.len() && stop_key(#[trigger] actions[i]) == k
}

proof fn lemma_running_map_distinct(running: Seq<(Seq<char>, AccountView)>, i: int)
    requires
        0 <= i < running.len(),
        forall|a: int, b: int| 0 <= a < b < running.len() ==> running[a].0 != running[b].0,
    ensures
        running_map(running).contains_key(running[i].0),
        running_map(running)[running[i].0] == running[i].1,
    decreases running.len(),
{
    if i < running.len() - 1 {
        lemma_running_map_distinct(running.drop_last(), i);
    }
}

proof fn lemma_running_map_keys(running: Seq<(Seq<char>, AccountView)>, k: Seq<char>)
    requires
        running_map(running).contains_key(k),
    ensures
        exists|i: int| 0 <= i < running.len() && (#[trigger] running[i]).0 == k,
    decreases running.len(),
{
    if running.len() > 0 && running.last().0 != k {
        lemma_running_map_keys(running.drop_last(), k);
        let i = choose|i: int| 0 <= i < running.drop_last().len() && (#[trigger] running.drop_last()[i]).0 == k;
        assert(running[i].0 == k);
    }
}

/// The accounts as plain values.
pub open spec fn accounts_view(s: Seq<EmailAccount>) -> Seq<AccountView> {
    s.map_values(|a: EmailAccount| a@)
}

/// The running workers as plain values.
pub open spec fn running_view(s: Seq<(String, EmailAccount)>) -> Seq<(Seq<char>, AccountView)> {
    s.map_values(|p: (String, EmailAccount)| (p.0@, p.1@))
}

/// The actions as plain values.
pub open spec fn actions_view(s: Seq<AccountAction>) -> Seq<ActionView> {
    s.map_values(|a: AccountAction| a@)
}

fn find_running(running: &[(String, EmailAccount)], id: &String) -> (r: Option<usize>)
    requires
        forall|a: int, b: int|
            0 <= a < b < running@.len() ==> running@[a].0@ != running@[b].0@,
    ensures
        match r {
            Some(j) => j < running@.len() && running@[j as int].0@ == id@ && running_map(
                running_view(running@),
            ).contains_key(id@) && running_map(running_view(running@))[id@] == running@[j as int].1@,
            None => !running_map(running_view(running@)).contains_key(id@),
        },
{
    let ghost rv = running_view(running@);
    let mut j: usize = 0;
    while j < running.len()
        invariant
            j <= running@.len(),
            rv == running_view(running@),
            forall|a: int, b: int|
                0 <= a < b < running@.len() ==> running@[a].0@ != running@[b].0@,
            forall|k: int| 0 <= k < j ==> running@[k].0@ != id@,
        decreases running.len() - j,
    {
        if running[j].0 == *id {
            proof {
                assert forall|a: int, b: int| 0 <= a < b < rv.len() implies rv[a].0 != rv[b].0 by {
                    assert(rv[a].0 == running@[a].0@);
                    assert(rv[b].0 == running@[b].0@);
                }
                lemma_running_map_distinct(rv, j as int);
            }
            return Some(j);
        }
        j = j + 1;
    }
    proof {
        if running_map(rv).contains_key(id@) {
            lemma_running_map_keys(rv, id@);
            let k = choose|k: int| 0 <= k < rv.len() && (#[trigger] rv[k]).0 == id@;
            assert(running@[k].0@ == id@);
        }
    }
    None
}

fn is_wanted(desired: &[EmailAccount], id: &String) -> (r: bool)
    ensures
        r == wanted(accounts_view(desired@), id@),
{
    let ghost dv = accounts_view(desired@);
    let mut j: usize = 0;
    while j < desired.len()
        invariant
            j <= desired@.len(),
            dv == accounts_view(desired@),
            forall|k: int| 0 <= k < j ==> !(dv[k].id == id@ && runnable(dv[k])),
        decreases desired.len() - j,
    {
        if desired[j].id == *id && desired[j].enabled && desired[j].is_complete() {
            assert(dv[j as int].id == id@ && runnable(dv[j as int]));
            return true;
        }
        j = j + 1;
    }
    false
}

/// Moves the worker set towards the enabled and complete accounts (see
/// `reconciled`). `running` holds the configuration of each running worker
/// under its account id; ids are unique, as in a map.
pub fn reconcile(desired: &[EmailAccount], running: &[(String, EmailAccount)]) -> (r: Vec<
    AccountAction,
>)
    requires
        forall|a: int, b: int|
            0 <= a < b < running@.len() ==> running@[a].0@ != running@[b].0@,
    ensures
        reconciled(
            accounts_view(desired@),
            running_map(running_view(running@)),
            actions_view(r@),
        ),
{
    let ghost dv = accounts_view(desired@);
    let ghost rv = running_view(running@);
    let ghost m = running_map(rv);
    let mut actions: Vec<AccountAction> = Vec::new();
    let mut i: usize = 0;
    while i < desired.len()
        invariant
            i <= desired@.len(),
            dv == accounts_view(desired@),
            rv == running_view(running@),
            m == running_map(rv),
            forall|a: int, b: int|
                0 <= a < b < running@.len() ==> running@[a].0@ != running@[b].0@,
            actions@.len() == spawn_list(dv.take(i as int), m).len(),
            forall|k: int|
                0 <= k < actions@.len() ==> (#[trigger] actions@[k])@ == ActionView::Spawn(
                    spawn_list(dv.take(i as int), m)[k],
                ),
        decreases desired.len() - i,
    {
        let acc = &desired[i];
        assert(dv.take(i + 1).drop_last() =~= dv.take(i as int));
        assert(dv.take(i + 1).last() == acc@);
        if acc.enabled && acc.is_complete() {
            let same = match find_running(running, &acc.id) {
                Some(j) => running[j].1.same_as(acc),
                None => false,
            };
            if !same {
                actions.push(AccountAction::Spawn(acc.copy()));
            }
        }
        i = i + 1;
    }
    assert(dv.take(desired@.len() as int) =~= dv);
    let ghost spawns = spawn_list(dv, m);
    let ns = actions.len();
    // the running workers that no runnable account wants
    let mut stale: Vec<Vec<char>> = Vec::new();
    let mut stale_ids: Vec<String> = Vec::new();
    let ghost mut origin: Seq<int> = Seq::empty();
    let mut j: usize = 0;
    while j < running.len()
        invariant
            j <= running@.len(),
            dv == accounts_view(desired@),
            rv == running_view(running@),
            forall|a: int, b: int|
                0 <= a < b < running@.len() ==> running@[a].0@ != running@[b].0@,
            stale@.len() == stale_ids@.len(),
            origin.len() == stale@.len(),
            forall|k: int| 0 <= k < stale@.len() ==> (#[trigger] stale@[k])@ == stale_ids@[k]@,
            forall|k: int|
                0 <= k < origin.len() ==> 0 <= #[trigger] origin[k] < j && running@[origin[k]].0@
                    == stale_ids@[k]@ && !wanted(dv, stale_ids@[k]@),
            forall|a: int, b: int| 0 <= a < b < origin.len() ==> origin[a] < origin[b],
            forall|k: int|
                0 <= k < j && !wanted(dv, #[trigger] running@[k].0@) ==> exists|q: int|
                    0 <= q < stale_ids@.len() && stale_ids@[q]@ == running@[k].0@,
        decreases running.len() - j,
    {
        if !is_wanted(desired, &running[j].0) {
            let ghost old_ids = stale_ids@;
            stale.push(chars_of(running[j].0.as_str()));
            stale_ids.push(running[j].0.clone());
            proof {
                origin = origin.push(j as int);
                assert(stale_ids@[stale_ids@.len() - 1]@ == running@[j as int].0@);
                assert forall|k: int|
                    0 <= k < j + 1 && !wanted(dv, #[trigger] running@[k].0@) implies exists|q: int|
                        0 <= q < stale_ids@.len() && stale_ids@[q]@ == running@[k].0@ by {
                    if k < j {
                        let q = choose|q: int| 0 <= q < old_ids.len() && old_ids[q]@ == running@[k].0@;
                        assert(stale_ids@[q] == old_ids[q]);
                    } else {
                        assert(stale_ids@[stale_ids@.len() - 1]@ == running@[k].0@);
                    }
                }
            }
        }
        j = j + 1;
    }
    assert forall|a: int, b: int| 0 <= a < b < stale@.len() implies stale@[a]@ != stale@[b]@ by {
        assert(origin[a] < origin[b]);
    }
    let order = sorted_order(&stale);
    let mut q: usize = 0;
    while q < order.len()
        invariant
            q <= order@.len(),
            order@.len() == stale@.len(),
            stale@.len() == stale_ids@.len(),
            forall|k: int| 0 <= k < order@.len() ==> #[trigger] order@[k] < stale@.len(),
            forall|k: int| 0 <= k < stale@.len() ==> (#[trigger] stale@[k])@ == stale_ids@[k]@,
            ns == spawns.len(),
            forall|a: int, b: int|
                0 <= a < b < order@.len() ==> lex_lt(
                    stale@[order@[a] as int]@,
                    stale@[order@[b] as int]@,
                ),
            forall|k: usize| k < stale@.len() ==> #[trigger] order@.contains(k),
            origin.len() == stale@.len(),
            forall|k: int|
                0 <= k < origin.len() ==> 0 <= #[trigger] origin[k] < running@.len()
                    && running@[origin[k]].0@ == stale_ids@[k]@ && !wanted(dv, stale_ids@[k]@),
            forall|k: int|
                0 <= k < running@.len() && !wanted(dv, #[trigger] running@[k].0@) ==> exists|q: int|
                    0 <= q < stale_ids@.len() && stale_ids@[q]@ == running@[k].0@,
            actions@.len() == ns + q,
            forall|k: int|
                0 <= k < ns ==> (#[trigger] actions@[k])@ == ActionView::Spawn(spawns[k]),
            forall|k: int|
                ns <= k < actions@.len() ==> (#[trigger] actions@[k])@ == ActionView::Stop(
                    stale_ids@[order@[k - ns] as int]@,
                ),
        decreases order.len() - q,
    {
        let id = stale_ids[order[q]].clone();
        actions.push(AccountAction::Stop(id));
        q = q + 1;
    }
    let ghost av = actions_view(actions@);
    proof {
        assert forall|a: int, b: int| ns <= a < b < av.len() implies lex_lt(
            stop_key(#[trigger] av[a]),
            stop_key(#[trigger] av[b]),
        ) by {
            assert(av[a] == actions@[a]@);
            assert(av[b] == actions@[b]@);
            assert(lex_lt(stale@[order@[a - ns] as int]@, stale@[order@[b - ns] as int]@));
        }
        assert forall|a: int| ns <= a < av.len() implies m.contains_key(stop_key(#[trigger] av[a]))
            && !wanted(dv, stop_key(av[a])) by {
            assert(av[a] == actions@[a]@);
            let k = order@[a - ns] as int;
            let o = origin[k];
            assert(rv[o].0 == running@[o].0@);
            assert forall|x: int, y: int| 0 <= x < y < rv.len() implies rv[x].0 != rv[y].0 by {
                assert(rv[x].0 == running@[x].0@);
                assert(rv[y].0 == running@[y].0@);
            }
            lemma_running_map_distinct(rv, o);
        }
        assert forall|key: Seq<char>| #[trigger] m.contains_key(key) && !wanted(dv, key) implies exists|a: int|
            ns <= a < av.len() && stop_key(#[trigger] av[a]) == key by {
            lemma_running_map_keys(rv, key);
            let o = choose|o: int| 0 <= o < rv.len() && (#[trigger] rv[o]).0 == key;
            assert(rv[o].0 == running@[o].0@);
            assert(!wanted(dv, running@[o].0@));
            let sq = choose|sq: int| 0 <= sq < stale_ids@.len() && stale_ids@[sq]@ == running@[o].0@;
            assert(order@.contains(sq as usize));
            let p = choose|p: int| 0 <= p < order@.len() && order@[p] == sq as usize;
            assert(av[ns + p] == actions@[ns + p]@);
            assert(stop_key(av[ns + p]) == key);
        }
        assert forall|a: int| 0 <= a < spawns.len() implies av[a] == ActionView::Spawn(#[trigger] spawns[a]) by {
            assert(av[a] == actions@[a]@);
        }
        assert forall|a: int| spawns.len() <= a < av.len() implies (#[trigger] av[a]) is Stop by {
            assert(av[a] == actions@[a]@);
        }
    }
    actions
}

/* ---------- what reconciliation achieves ---------- */

/// The workers after one action: a start replaces the account's worker (the
/// old one is told to stop), a stop removes it.
pub open spec fn apply_action(m: Map<Seq<char>, AccountView>, a: ActionView) -> Map<Seq<char>, AccountView> {
    match a {
        ActionView::Spawn(c) => m.insert(c.id, c),
        ActionView::Stop(k) => m.remove(k),
    }
}

/// The workers after carrying out `actions` in order.
pub open spec fn apply_actions(m: Map<Seq<char>, AccountView>, actions: Seq<ActionView>) -> Map<Seq<char>, AccountView>
    decreases actions.len(),
{
    if actions.len() == 0 {
        m
    } else {
        apply_action(apply_actions(m, actions.drop_last()), actions.last())
    }
}

/// The workers that should run: one per runnable account, under its id.
pub open spec fn target_workers(desired: Seq<AccountView>) -> Map<Seq<char>, AccountView>
    decreases desired.len(),
{
    if desired.len() == 0 {
        Map::empty()
    } else if runnable(desired.last()) {
        target_workers(desired.drop_last()).insert(desired.last().id, desired.last())
    } else {
        target_workers(desired.drop_last())
    }
}

/// No two runnable accounts share an id.
pub open spec fn runnable_ids_distinct(desired: Seq<AccountView>) -> bool {
    forall|a: int, b: int|
        0 <= a < b < desired.len() && runnable(#[trigger] desired[a]) && runnable(#[trigger] desired[b])
            ==> desired[a].id != desired[b].id
}

proof fn lemma_spawn_list_members(desired: Seq<AccountView>, m: Map<Seq<char>, AccountView>)
    ensures
        forall|i: int|
            0 <= i < spawn_list(desired, m).len() ==> needs_spawn(#[trigger] spawn_list(desired, m)[i], m)
                && exists|j: int| 0 <= j < desired.len() && desired[j] == spawn_list(desired, m)[i],
        forall|j: int|
            0 <= j < desired.len() && needs_spawn(#[trigger] desired[j], m) ==> exists|i: int|
                0 <= i < spawn_list(desired, m).len() && spawn_list(desired, m)[i] == desired[j],
    decreases desired.len(),
{
    if desired.len() > 0 {
        let d0 = desired.drop_last();
        lemma_spawn_list_members(d0, m);
        let s0 = spawn_list(d0, m);
        let s = spawn_list(desired, m);
        assert forall|i: int| 0 <= i < s.len() implies needs_spawn(#[trigger] s[i], m) && exists|j: int|
            0 <= j < desired.len() && desired[j] == s[i] by {
            if i < s0.len() {
                assert(s[i] == s0[i]);
                let j = choose|j: int| 0 <= j < d0.len() && d0[j] == s0[i];
                assert(desired[j] == s[i]);
            } else {
                assert(s[i] == desired.last());
                assert(desired[desired.len() - 1] == s[i]);
            }
        }
        assert forall|j: int| 0 <= j < desired.len() && needs_spawn(#[trigger] desired[j], m) implies exists|i: int|
            0 <= i < s.len() && s[i] == desired[j] by {
            if j < d0.len() {
                assert(d0[j] == desired[j]);
                let i = choose|i: int| 0 <= i < s0.len() && s0[i] == d0[j];
                assert(s[i] == s0[i]);
            } else {
                assert(s[s.len() - 1] == desired[j]);
            }
        }
    }
}

proof fn lemma_target_workers(desired: Seq<AccountView>)
    requires
        runnable_ids_distinct(desired),
    ensures
        forall|j: int|
            0 <= j < desired.len() && runnable(#[trigger] desired[j]) ==> target_workers(desired).contains_key(
                desired[j].id,
            ) && target_workers(desired)[desired[j].id] == desired[j],
        forall|k: Seq<char>| #[trigger] target_workers(desired).contains_key(k) ==> wanted(desired, k),
    decreases desired.len(),
{
    if desired.len() > 0 {
        let d0 = desired.drop_last();
        assert forall|a: int, b: int|
            0 <= a < b < d0.len() && runnable(#[trigger] d0[a]) && runnable(#[trigger] d0[b]) implies d0[a].id
            != d0[b].id by {
            assert(d0[a] == desired[a] && d0[b] == desired[b]);
        }
        lemma_target_workers(d0);
        let t = target_workers(desired);
        let n = desired.len() - 1;
        assert forall|j: int| 0 <= j < desired.len() && runnable(#[trigger] desired[j]) implies t.contains_key(
            desired[j].id,
        ) && t[desired[j].id] == desired[j] by {
            if j < n {
                assert(d0[j] == desired[j]);
                if runnable(desired[n]) {
                    assert(desired[j].id != desired[n].id);
                }
            }
        }
        assert forall|k: Seq<char>| #[trigger] t.contains_key(k) implies wanted(desired, k) by {
            if target_workers(d0).contains_key(k) {
                let j = choose|j: int| 0 <= j < d0.len() && (#[trigger] d0[j]).id == k && runnable(d0[j]);
                assert(desired[j] == d0[j]);
            } else {
                assert(desired[n].id == k && runnable(desired[n]));
            }
        }
    }
}

proof fn lemma_apply_untouched(m: Map<Seq<char>, AccountView>, acts: Seq<ActionView>, k: Seq<char>)
    requires
        forall|i: int| 0 <= i < acts.len() ==> stop_key(#[trigger] acts[i]) != k,
    ensures
        apply_actions(m, acts).contains_key(k) == m.contains_key(k),
        m.contains_key(k) ==> apply_actions(m, acts)[k] == m[k],
    decreases acts.len(),
{
    if acts.len() > 0 {
        assert forall|i: int| 0 <= i < acts.drop_last().len() implies stop_key(#[trigger] acts.drop_last()[i]) != k by {
            assert(acts.drop_last()[i] == acts[i]);
        }
        lemma_apply_untouched(m, acts.drop_last(), k);
        assert(stop_key(acts[acts.len() - 1]) != k);
    }
}

proof fn lemma_apply_spawned(
    m: Map<Seq<char>, AccountView>,
    acts: Seq<ActionView>,
    k: Seq<char>,
    c: AccountView,
)
    requires
        c.id == k,
        exists|i: int| 0 <= i < acts.len() && stop_key(#[trigger] acts[i]) == k,
        forall|i: int| 0 <= i < acts.len() && stop_key(#[trigger] acts[i]) == k ==> acts[i] == ActionView::Spawn(c),
    ensures
        apply_actions(m, acts).contains_key(k),
        apply_actions(m, acts)[k] == c,
    decreases acts.len(),
{
    let n = acts.len() - 1;
    let d0 = acts.drop_last();
    assert forall|i: int| 0 <= i < d0.len() && stop_key(#[trigger] d0[i]) == k implies d0[i] == ActionView::Spawn(c) by {
        assert(d0[i] == acts[i]);
    }
    if stop_key(acts[n]) != k {
        let i = choose|i: int| 0 <= i < acts.len() && stop_key(#[trigger] acts[i]) == k;
        assert(d0[i] == acts[i]);
        lemma_apply_spawned(m, d0, k, c);
    }
}

proof fn lemma_apply_stopped(m: Map<Seq<char>, AccountView>, acts: Seq<ActionView>, k: Seq<char>)
    requires
        (exists|i: int| 0 <= i < acts.len() && stop_key(#[trigger] acts[i]) == k) || !m.contains_key(k),
        forall|i: int| 0 <= i < acts.len() && stop_key(#[trigger] acts[i]) == k ==> acts[i] is Stop,
    ensures
        !apply_actions(m, acts).contains_key(k),
    decreases acts.len(),
{
    if acts.len() > 0 {
        let n = acts.len() - 1;
        let d0 = acts.drop_last();
        assert forall|i: int| 0 <= i < d0.len() && stop_key(#[trigger] d0[i]) == k implies d0[i] is Stop by {
            assert(d0[i] == acts[i]);
        }
        if stop_key(acts[n]) != k {
            if exists|i: int| 0 <= i < acts.len() && stop_key(#[trigger] acts[i]) == k {
                let i = choose|i: int| 0 <= i < acts.len() && stop_key(#[trigger] acts[i]) == k;
                assert(d0[i] == acts[i]);
            }
            lemma_apply_stopped(m, d0, k);
        }
    }
}

/// Reconciliation converges: carrying out the actions of `reconcile` leaves
/// exactly one worker per enabled and complete account, running that
/// account's configuration, and no other worker (when no two such accounts
/// share an id).
pub proof fn lemma_reconcile_converges(
    desired: Seq<AccountView>,
    m: Map<Seq<char>, AccountView>,
    actions: Seq<ActionView>,
)
    requires
        reconciled(desired, m, actions),
        runnable_ids_distinct(desired),
    ensures
        apply_actions(m, actions) == target_workers(desired),
{
    let s = spawn_list(desired, m);
    let t = target_workers(desired);
    let r = apply_actions(m, actions);
    lemma_spawn_list_members(desired, m);
    lemma_target_workers(desired);
    assert forall|k: Seq<char>| #[trigger] r.contains_key(k) == t.contains_key(k) && (r.contains_key(k) ==> r[k]
        == t[k]) by {
        if wanted(desired, k) {
            let j = choose|j: int| 0 <= j < desired.len() && (#[trigger] desired[j]).id == k && runnable(desired[j]);
            let a = desired[j];
            // every action on key `k` starts `a`
            assert forall|i: int| 0 <= i < actions.len() && stop_key(#[trigger] actions[i]) == k implies actions[i]
                == ActionView::Spawn(a) by {
                if i < s.len() {
                    assert(actions[i] == ActionView::Spawn(s[i]));
                    let j2 = choose|j2: int| 0 <= j2 < desired.len() && desired[j2] == s[i];
                    assert(needs_spawn(s[i], m));
                    if j2 != j {
                        if j2 < j {
                            assert(desired[j2].id != desired[j].id);
                        } else {
                            assert(desired[j].id != desired[j2].id);
                        }
                    }
                } else {
                    assert(actions[i] is Stop);
                    assert(!wanted(desired, stop_key(actions[i])));
                }
            }
            if needs_spawn(a, m) {
                let i = choose|i: int| 0 <= i < s.len() && s[i] == desired[j];
                assert(actions[i] == ActionView::Spawn(s[i]));
                assert(stop_key(actions[i]) == k);
                lemma_apply_spawned(m, actions, k, a);
            } else {
                assert forall|i: int| 0 <= i < actions.len() implies stop_key(#[trigger] actions[i]) != k by {
                    if stop_key(actions[i]) == k {
                        assert(actions[i] == ActionView::Spawn(a));
                        assert(i < s.len()) by {
                            if i >= s.len() {
                                assert(actions[i] is Stop);
                            }
                        }
                        assert(actions[i] == ActionView::Spawn(s[i]));
                        assert(needs_spawn(s[i], m));
                    }
                }
                lemma_apply_untouched(m, actions, k);
            }
        } else {
            assert(!t.contains_key(k));
            assert forall|i: int| 0 <= i < actions.len() && stop_key(#[trigger] actions[i]) == k implies actions[i] is Stop by {
                if i < s.len() {
                    assert(actions[i] == ActionView::Spawn(s[i]));
                    let j2 = choose|j2: int| 0 <= j2 < desired.len() && desired[j2] == s[i];
                    assert(needs_spawn(s[i], m));
                    assert(desired[j2].id == k && runnable(desired[j2]));
                }
            }
            if m.contains_key(k) {
                let i = choose|i: int| s.len() <= i < actions.len() && stop_key(#[trigger] actions[i]) == k;
            }
            lemma_apply_stopped(m, actions, k);
        }
    }
    assert(r =~= t);
}

/// Reconciliation is stable: when the workers already match the enabled and
/// complete accounts, there is nothing to do (when no two such accounts share
/// an id).
pub proof fn lemma_reconcile_stable(desired: Seq<AccountView>, actions: Seq<ActionView>)
    requires
        reconciled(desired, target_workers(desired), actions),
        runnable_ids_distinct(desired),
    ensures
        actions.len() == 0,
{
    let t = target_workers(desired);
    let s = spawn_list(desired, t);
    lemma_spawn_list_members(desired, t);
    lemma_target_workers(desired);
    if s.len() > 0 {
        let j = choose|j: int| 0 <= j < desired.len() && desired[j] == s[0];
        assert(needs_spawn(s[0], t));
        assert(runnable(desired[j]));
    }
    if actions.len() > 0 {
        assert(actions[0] is Stop);
        assert(t.contains_key(stop_key(actions[0])));
    }
}

/// The running workers' ids that no runnable account wants.
pub open spec fn unwanted_ids(desired: Seq<AccountView>, m: Map<Seq<char>, AccountView>) -> Set<Seq<char>> {
    Set::new(|k: Seq<char>| m.contains_key(k) && !wanted(desired, k))
}

/// `s` lists the set `ids` in strictly ascending order.
pub open spec fn sorted_listing(s: Seq<Seq<char>>, ids: Set<Seq<char>>) -> bool {
    &&& forall|a: int, b: int| 0 <= a < b < s.len() ==> lex_lt(#[trigger] s[a], #[trigger] s[b])
    &&& forall|k: Seq<char>| #[trigger] ids.contains(k) <==> s.contains(k)
}

/// The ids in ascending order (the one sorted listing there is, when `ids`
/// has one).
pub open spec fn sorted_ids(ids: Set<Seq<char>>) -> Seq<Seq<char>> {
    choose|s: Seq<Seq<char>>| sorted_listing(s, ids)
}

/// A set has at most one sorted listing.
proof fn lemma_sorted_listing_unique(s1: Seq<Seq<char>>, s2: Seq<Seq<char>>, ids: Set<Seq<char>>)
    requires
        sorted_listing(s1, ids),
        sorted_listing(s2, ids),
    ensures
        s1 == s2,
    decreases s1.len(),
{
    if s1.len() == 0 {
        if s2.len() > 0 {
            assert(s2.contains(s2[0]));
            assert(ids.contains(s2[0]));
        }
        assert(s1 =~= s2);
    } else {
        let a = s1[0];
        assert(s1.contains(a));
        assert(ids.contains(a));
        assert(s2.contains(a));
        let b = s2[0];
        assert(ids.contains(b));
        assert(s1.contains(b));
        if a != b {
            let j = choose|j: int| 0 <= j < s2.len() && s2[j] == a;
            let i = choose|i: int| 0 <= i < s1.len() && s1[i] == b;
            assert(j != 0);
            assert(i != 0);
            assert(lex_lt(s2[0], s2[j]));
            assert(lex_lt(s1[0], s1[i]));
            lemma_lex_lt_transitive(a, b, a);
            lemma_lex_lt_irreflexive(a);
        }
        let rest = ids.remove(a);
        let t1 = s1.drop_first();
        let t2 = s2.drop_first();
        assert forall|k: Seq<char>| #[trigger] rest.contains(k) <==> t1.contains(k) by {
            if t1.contains(k) {
                let i = choose|i: int| 0 <= i < t1.len() && t1[i] == k;
                assert(s1[i + 1] == k);
                assert(lex_lt(s1[0], s1[i + 1]));
                lemma_lex_lt_irreflexive(a);
                assert(s1.contains(k));
            }
            if rest.contains(k) {
                assert(s1.contains(k));
                let i = choose|i: int| 0 <= i < s1.len() && s1[i] == k;
                assert(i != 0);
                assert(t1[i - 1] == k);
            }
        }
        assert forall|k: Seq<char>| #[trigger] rest.contains(k) <==> t2.contains(k) by {
            if t2.contains(k) {
                let i = choose|i: int| 0 <= i < t2.len() && t2[i] == k;
                assert(s2[i + 1] == k);
                assert(lex_lt(s2[0], s2[i + 1]));
                lemma_lex_lt_irreflexive(a);
                assert(s2.contains(k));
            }
            if rest.contains(k) {
                assert(s2.contains(k));
                let i = choose|i: int| 0 <= i < s2.len() && s2[i] == k;
                assert(i != 0);
                assert(t2[i - 1] == k);
            }
        }
        assert forall|x: int, y: int| 0 <= x < y < t1.len() implies lex_lt(#[trigger] t1[x], #[trigger] t1[y]) by {
            assert(lex_lt(s1[x + 1], s1[y + 1]));
        }
        assert forall|x: int, y: int| 0 <= x < y < t2.len() implies lex_lt(#[trigger] t2[x], #[trigger] t2[y]) by {
            assert(lex_lt(s2[x + 1], s2[y + 1]));
        }
        lemma_sorted_listing_unique(t1, t2, rest);
        assert(s1 =~= seq![a] + t1);
        assert(s2 =~= seq![a] + t2);
    }
}

/// Reconciliation is determined: the starts, in the order of the accounts,
/// then a stop for each running id that no runnable account wants, in
/// ascending order of id.
pub proof fn lemma_reconcile_is_starts_then_sorted_stops(
    desired: Seq<AccountView>,
    m: Map<Seq<char>, AccountView>,
    actions: Seq<ActionView>,
)
    requires
        reconciled(desired, m, actions),
    ensures
        actions == spawn_list(desired, m).map_values(|a: AccountView| ActionView::Spawn(a)) + sorted_ids(
            unwanted_ids(desired, m),
        ).map_values(|k: Seq<char>| ActionView::Stop(k)),
{
    let s = spawn_list(desired, m);
    let ns = s.len() as int;
    let ids = unwanted_ids(desired, m);
    let stops = actions.subrange(ns, actions.len() as int).map_values(|a: ActionView| stop_key(a));
    assert forall|x: int, y: int| 0 <= x < y < stops.len() implies lex_lt(#[trigger] stops[x], #[trigger] stops[y]) by {
        assert(stops[x] == stop_key(actions[ns + x]));
        assert(stops[y] == stop_key(actions[ns + y]));
    }
    assert forall|k: Seq<char>| #[trigger] ids.contains(k) <==> stops.contains(k) by {
        if ids.contains(k) {
            assert(m.contains_key(k) && !wanted(desired, k));
            let i = choose|i: int| ns <= i < actions.len() && stop_key(#[trigger] actions[i]) == k;
            assert(stops[i - ns] == k);
        }
        if stops.contains(k) {
            let i = choose|i: int| 0 <= i < stops.len() && stops[i] == k;
            assert(stop_key(actions[ns + i]) == k);
        }
    }
    assert(sorted_listing(stops, ids));
    lemma_sorted_listing_unique(stops, sorted_ids(ids), ids);
    let expected = s.map_values(|a: AccountView| ActionView::Spawn(a)) + sorted_ids(ids).map_values(
        |k: Seq<char>| ActionView::Stop(k),
    );
    assert forall|i: int| 0 <= i < actions.len() implies actions[i] == expected[i] by {
        if i < ns {
            assert(actions[i] == ActionView::Spawn(s[i]));
        } else {
            assert(actions[i] is Stop);
            assert(stops[i - ns] == stop_key(actions[i]));
        }
    }
    assert(actions =~= expected);
}

/* ---------- IMAP reconnection back-off ---------- */

/// 2 to the power `k`.
pub open spec fn two_pow(k: nat) -> nat
    decreases k,
{
    if k == 0 {
        1
    } else {
        2 * two_pow((k - 1) as nat)
    }
}

/// Seconds to wait before reconnection attempt `attempt`: 5, 10, 20, 40, 80,
/// 160, then 300 from the sixth failure on.
pub open spec fn backoff_of(attempt: nat) -> nat {
    let v = 5 * two_pow(if attempt < 10 { attempt } else { 10 });
    if v < 300 {
        v
    } else {
        300
    }
}

/// See `backoff_of`.
pub fn backoff_secs(attempt: u32) -> (r: u64)
    ensures
        r as nat == backoff_of(attempt as nat),
{
    let k = if attempt < 10 {
        attempt
    } else {
        10
    };
    let mut v: u64 = 5;
    let mut i: u32 = 0;
    while i < k
        invariant
            i <= k <= 10,
            v as nat == 5 * two_pow(i as nat),
            v <= 5 * 1024,
        decreases k - i,
    {
        proof {
            lemma_two_pow_le(i as nat);
        }
        v = v * 2;
        i = i + 1;
    }
    if v < 300 {
        v
    } else {
        300
    }
}

proof fn lemma_two_pow_le(k: nat)
    requires
        k < 10,
    ensures
        two_pow(k) * 2 <= 1024,
{
    lemma_two_pow_monotone(k, 9);
    reveal_with_fuel(two_pow, 10);
    assert(two_pow(9) == 512);
}

proof fn lemma_two_pow_monotone(a: nat, b: nat)
    requires
        a <= b,
    ensures
        two_pow(a) <= two_pow(b),
    decreases b,
{
    if a < b {
        lemma_two_pow_monotone(a, (b - 1) as nat);
    }
}

/// The back-off never shrinks as failures accumulate, starts at 5 seconds and
/// never exceeds 300.
pub proof fn lemma_backoff_grows_then_caps(a: nat, b: nat)
    requires
        a <= b,
    ensures
        backoff_of(a) <= backoff_of(b),
        5 <= backoff_of(a) <= 300,
{
    let ka = if a < 10 { a } else { 10 };
    let kb = if b < 10 { b } else { 10 };
    lemma_two_pow_monotone(ka, kb);
    lemma_two_pow_monotone(0, ka);
}

/// What the IMAP worker does after a failed synchronisation.
#[derive(Debug, PartialEq, Eq, Structural)]
pub enum ImapRetry {
    /// The worker was stopped: leave.
    Exit,
    /// Monitoring is paused: go back to the loop head without reporting.
    Resume,
    /// Report the error and wait this many seconds; the next failure counts as
    /// attempt `next_attempt`.
    Backoff { secs: u64, next_attempt: u32 },
}

/// The IMAP worker's decision after a failed synchronisation.
pub fn imap_retry(stop: bool, paused: bool, attempt: u32) -> (r: ImapRetry)
    ensures
        stop ==> r == ImapRetry::Exit,
        !stop && paused ==> r == ImapRetry::Resume,
        !stop && !paused ==> (r matches ImapRetry::Backoff { secs, next_attempt } && secs as nat
            == backoff_of(attempt as nat) && next_attempt == (if attempt < u32::MAX {
            attempt + 1
        } else {
            attempt as int
        })),
{
    if stop {
        ImapRetry::Exit
    } else if paused {
        ImapRetry::Resume
    } else {
        ImapRetry::Backoff {
            secs: backoff_secs(attempt),
            next_attempt: if attempt < u32::MAX {
                attempt + 1
            } else {
                attempt
            },
        }
    }
}

/// What the POP3 worker does on one tick of its loop.
#[derive(Debug, PartialEq, Eq, Structural)]
pub enum Pop3Tick {
    /// The worker was stopped: leave.
    Exit,
    /// Monitoring is paused: restart the poll timer so that resuming polls at once.
    Pause,
    /// Not yet time to poll.
    Wait,
    /// Poll now.
    Poll,
}

/// The POP3 worker's decision on one tick.
pub fn pop3_tick(stop: bool, paused: bool, due: bool) -> (r: Pop3Tick)
    ensures
        r == (if stop {
            Pop3Tick::Exit
        } else if paused {
            Pop3Tick::Pause
        } else if !due {
            Pop3Tick::Wait
        } else {
            Pop3Tick::Poll
        }),
{
    if stop {
        Pop3Tick::Exit
    } else if paused {
        Pop3Tick::Pause
    } else if !due {
        Pop3Tick::Wait
    } else {
        Pop3Tick::Poll
    }
}

/* ---------- status shown by the supervisor ---------- */

/// The state the supervisor shows for an account: disabled when it is not
/// enabled, disabled with a hint when it is incomplete, paused while the
/// monitor is paused; otherwise the state is the worker's to report.
pub open spec fn supervisor_state(a: AccountView, paused: bool, lang: Seq<char>) -> Option<StateView> {
    if !a.enabled {
        Some(("disabled"@, None))
    } else if !account_complete(a) {
        Some(
            (
                "disabled"@,
                Some(
                    if is_en_lang(lang) {
                        "Email settings incomplete: fill in server, account and auth code"@
                    } else {
                        "邮箱配置不完整，请在设置中补全服务器、账号与授权码"@
                    },
                ),
            ),
        )
    } else if paused {
        Some(("paused"@, None))
    } else {
        None
    }
}

/// See `supervisor_state`.
pub fn supervisor_status(account: &EmailAccount, paused: bool, lang: &str) -> (r: Option<EmailState>)
    ensures
        match supervisor_state(account@, paused, lang@) {
            None => r is None,
            Some(v) => r matches Some(st) && st@ == v,
        },
{
    if !account.enabled {
        Some(EmailState::new("disabled", None))
    } else if !account.is_complete() {
        let hint = string_of(email_config_incomplete(lang));
        Some(EmailState::new("disabled", Some(hint)))
    } else if paused {
        Some(EmailState::new("paused", None))
    } else {
        None
    }
}

/// The ids with a shown state whose account no longer exists, in order.
pub open spec fn stale_ids(ids: Seq<Seq<char>>, accounts: Seq<AccountView>) -> Seq<Seq<char>>
    decreases ids.len(),
{
    if ids.len() == 0 {
        Seq::empty()
    } else if exists|j: int| 0 <= j < accounts.len() && (#[trigger] accounts[j]).id == ids.last() {
        stale_ids(ids.drop_last(), accounts)
    } else {
        stale_ids(ids.drop_last(), accounts).push(ids.last())
    }
}

/// The shown ids whose account was removed from the settings; their states
/// are taken down.
pub fn stale_status_ids(ids: &[String], accounts: &[EmailAccount]) -> (r: Vec<String>)
    ensures
        r@.map_values(|s: String| s@) == stale_ids(ids@.map_values(|s: String| s@), accounts_view(accounts@)),
{
    let ghost iv = ids@.map_values(|s: String| s@);
    let ghost av = accounts_view(accounts@);
    let mut r: Vec<String> = Vec::new();
    let mut i: usize = 0;
    while i < ids.len()
        invariant
            i <= ids@.len(),
            iv == ids@.map_values(|s: String| s@),
            av == accounts_view(accounts@),
            r@.map_values(|s: String| s@) == stale_ids(iv.subrange(0, i as int), av),
        decreases ids.len() - i,
    {
        let mut found = false;
        let mut j: usize = 0;
        while j < accounts.len()
            invariant
                j <= accounts@.len(),
                i < ids@.len(),
                av == accounts_view(accounts@),
                found == (exists|k: int| 0 <= k < j && (#[trigger] av[k]).id == ids@[i as int]@),
            decreases accounts.len() - j,
        {
            if str_eq(accounts[j].id.as_str(), ids[i].as_str()) {
                assert(av[j as int].id == ids@[i as int]@);
                found = true;
            }
            j = j + 1;
        }
        let ghost prefix = iv.subrange(0, i + 1);
        assert(prefix.drop_last() =~= iv.subrange(0, i as int));
        assert(prefix.last() == ids@[i as int]@);
        if !found {
            r.push(ids[i].clone());
        }
        assert(r@.map_values(|s: String| s@) =~= stale_ids(prefix, av));
        i = i + 1;
    }
    assert(iv.subrange(0, ids@.len() as int) =~= iv);
    r
}

/* ---------- IMAP synchronisation state ---------- */

/// Where IMAP synchronisation resumes: with the stored UIDVALIDITY unchanged
/// the stored highest UID is kept (nothing to write); otherwise (first
/// connection or a new UIDVALIDITY) only a baseline is set, UIDNEXT - 1
/// (0 when UIDNEXT is 0), which must be written.
pub open spec fn uid_plan(stored: Option<(u32, u32)>, uid_validity: u32, uid_next: u32) -> (u32, bool) {
    match stored {
        Some((v, max_uid)) => if v == uid_validity {
            (max_uid, false)
        } else {
            (if uid_next > 0 { (uid_next - 1) as u32 } else { 0u32 }, true)
        },
        None => (if uid_next > 0 { (uid_next - 1) as u32 } else { 0u32 }, true),
    }
}

/// Once a baseline is stored, a later connection with the same UIDVALIDITY
/// resumes from it and writes nothing, whatever UIDNEXT has become.
pub proof fn lemma_uid_baseline_then_resume(stored: Option<(u32, u32)>, uid_validity: u32, uid_next: u32, later_next: u32)
    ensures
        ({
            let (max_uid, _) = uid_plan(stored, uid_validity, uid_next);
            uid_plan(Some((uid_validity, max_uid)), uid_validity, later_next) == (max_uid, false)
        }),
{
}

/// See `uid_plan`.
pub fn plan_uid_state(stored: Option<(u32, u32)>, uid_validity: u32, uid_next: u32) -> (r: (u32, bool))
    ensures
        r == uid_plan(stored, uid_validity, uid_next),
{
    match stored {
        Some((v, max_uid)) if v == uid_validity => (max_uid, false),
        _ => (if uid_next > 0 { uid_next - 1 } else { 0 }, true),
    }
}

/// The first UID of `UID SEARCH UID n:*` after `max_uid`; none when
/// `max_uid` is the largest UID (then nothing newer exists).
pub fn search_start(max_uid: u32) -> (r: Option<u32>)
    ensures
        max_uid < u32::MAX ==> r == Some((max_uid + 1) as u32),
        max_uid == u32::MAX ==> r is None,
{
    if max_uid < u32::MAX {
        Some(max_uid + 1)
    } else {
        None
    }
}

/// What an IMAP session does next.
#[derive(Clone, Copy, Debug, PartialEq, Eq, Structural)]
pub enum ImapAction {
    /// Stopped or paused: leave the session (the caller logs out), so that
    /// nothing is fetched or stored while paused.
    Leave,
    /// Start a round: search for the UIDs newer than the highest handled one.
    Search,
    /// Fetch and handle this UID. Only once that has succeeded does it become
    /// the highest handled UID, stored at once; a failed fetch leaves both as
    /// they were, so the mail is tried again after reconnecting.
    Fetch(u32),
    /// The round is over: wait for the server.
    Wait,
}

/// The session's decision: leave when stopped or paused (checked before
/// every search and every fetch); otherwise search when no round is under
/// way, fetch the next of the first `MAX_PER_POLL` UIDs found, in order, and
/// wait once those are done.
pub open spec fn imap_next_of(stop: bool, paused: bool, searched: bool, found: Seq<u32>, fetched: int) -> ImapAction {
    if stop || paused {
        ImapAction::Leave
    } else if !searched {
        ImapAction::Search
    } else if 0 <= fetched < found.len() && fetched < MAX_PER_POLL {
        ImapAction::Fetch(found[fetched])
    } else {
        ImapAction::Wait
    }
}

/// See `imap_next_of`; `found` is what this round's search returned and
/// `fetched` how many of them were fetched so far.
pub fn imap_next(stop: bool, paused: bool, searched: bool, found: &[u32], fetched: usize) -> (r: ImapAction)
    ensures
        r == imap_next_of(stop, paused, searched, found@, fetched as int),
{
    if stop || paused {
        ImapAction::Leave
    } else if !searched {
        ImapAction::Search
    } else if fetched < found.len() && fetched < MAX_PER_POLL {
        ImapAction::Fetch(found[fetched])
    } else {
        ImapAction::Wait
    }
}

/// How an IMAP session waits between rounds.
#[derive(Clone, Copy, Debug, PartialEq, Eq, Structural)]
pub enum ImapWait {
    /// IDLE until the server reports a change or the keep-alive passes.
    Idle,
    /// Sleep this many seconds (interrupted by stop or pause).
    Sleep(u64),
}

/// A server that supports IDLE is waited on; otherwise the account's
/// polling interval is slept.
pub fn imap_wait(idle_capable: bool, interval_secs: u64) -> (r: ImapWait)
    ensures
        r == (if idle_capable { ImapWait::Idle } else { ImapWait::Sleep(interval_secs) }),
{
    if idle_capable {
        ImapWait::Idle
    } else {
        ImapWait::Sleep(interval_secs)
    }
}

/// What `SELECT INBOX` reports of the mailbox; the UID baseline depends on
/// UIDVALIDITY and UIDNEXT.
#[derive(Clone, Copy, Debug, PartialEq, Eq, Structural)]
pub struct MailboxInfo {
    pub uid_validity: u32,
    pub uid_next: u32,
    pub exists: u32,
}

/// The mailbox information from what the server reported: a mailbox without
/// UIDVALIDITY or UIDNEXT cannot be synchronised by UID, which is an error.
pub fn mailbox_info(uid_validity: Option<u32>, uid_next: Option<u32>, exists: u32) -> (r: Result<MailboxInfo, String>)
    ensures
        match (uid_validity, uid_next) {
            (Some(v), Some(n)) => r == Ok::<MailboxInfo, String>(MailboxInfo { uid_validity: v, uid_next: n, exists }),
            (None, _) => r matches Err(e) && e@ == "服务器未返回 UIDVALIDITY，无法建立同步基线"@,
            (Some(_), None) => r matches Err(e) && e@ == "服务器未返回 UIDNEXT，无法建立同步基线"@,
        },
{
    let v = match uid_validity {
        Some(v) => v,
        None => return Err(string_of("服务器未返回 UIDVALIDITY，无法建立同步基线")),
    };
    let n = match uid_next {
        Some(n) => n,
        None => return Err(string_of("服务器未返回 UIDNEXT，无法建立同步基线")),
    };
    Ok(MailboxInfo { uid_validity: v, uid_next: n, exists })
}

/// The UIDs newer than `max_uid` among the UIDs that a search returned, in
/// ascending order. The search range `n:*` always matches the last message,
/// so the server may return `max_uid` itself, which must not be fetched again.
pub fn newer_uids(found: &[u32], max_uid: u32) -> (r: Vec<u32>)
    requires
        forall|a: int, b: int| 0 <= a < b < found@.len() ==> found@[a] != found@[b],
    ensures
        forall|a: int, b: int| 0 <= a < b < r@.len() ==> r@[a] < r@[b],
        forall|x: u32| #[trigger] r@.contains(x) <==> (found@.contains(x) && x > max_uid),
{
    let mut r: Vec<u32> = Vec::new();
    let mut i: usize = 0;
    while i < found.len()
        invariant
            i <= found@.len(),
            forall|a: int, b: int| 0 <= a < b < found@.len() ==> found@[a] != found@[b],
            forall|a: int, b: int| 0 <= a < b < r@.len() ==> r@[a] < r@[b],
            forall|x: u32| #[trigger] r@.contains(x) <==> (found@.take(i as int).contains(x) && x > max_uid),
        decreases found.len() - i,
    {
        let x = found[i];
        let ghost old_r = r@;
        assert(found@.take(i + 1) =~= found@.take(i as int).push(x));
        if x > max_uid {
            assert(!found@.take(i as int).contains(x)) by {
                if found@.take(i as int).contains(x) {
                    let k = choose|k: int| 0 <= k < i && #[trigger] found@.take(i as int)[k] == x;
                    assert(found@[k] == found@[i as int]);
                }
            }
            let mut pos: usize = 0;
            while pos < r.len() && r[pos] < x
                invariant
                    pos <= r@.len(),
                    r@ == old_r,
                    forall|k: int| 0 <= k < pos ==> r@[k] < x,
                decreases r.len() - pos,
            {
                pos = pos + 1;
            }
            proof {
                if pos < old_r.len() {
                    assert(old_r[pos as int] != x) by {
                        assert(old_r.contains(old_r[pos as int]));
                    }
                }
            }
            r.insert(pos, x);
            proof {
                assert(r@ =~= old_r.subrange(0, pos as int) + seq![x] + old_r.subrange(
                    pos as int,
                    old_r.len() as int,
                ));
                assert forall|a: int, b: int| 0 <= a < b < r@.len() implies r@[a] < r@[b] by {
                    if b < pos {
                    } else if b == pos {
                    } else if a < pos {
                        assert(r@[b] == old_r[b - 1]);
                        assert(old_r[pos as int] >= x);
                        assert(old_r[pos as int] <= old_r[b - 1]);
                    } else if a == pos {
                        assert(r@[b] == old_r[b - 1]);
                        assert(old_r[pos as int] <= old_r[b - 1]);
                    } else {
                        assert(r@[a] == old_r[a - 1]);
                        assert(r@[b] == old_r[b - 1]);
                    }
                }
                assert forall|y: u32| #[trigger] r@.contains(y) <==> (found@.take(i + 1).contains(y)
                    && y > max_uid) by {
                    if r@.contains(y) {
                        let k = choose|k: int| 0 <= k < r@.len() && #[trigger] r@[k] == y;
                        if k == pos {
                            assert(found@.take(i + 1)[i as int] == y);
                        } else {
                            let k2 = if k < pos { k } else { k - 1 };
                            assert(old_r[k2] == y);
                            assert(old_r.contains(y));
                            let k3 = choose|k3: int| 0 <= k3 < i && #[trigger] found@.take(i as int)[k3] == y;
                            assert(found@.take(i + 1)[k3] == y);
                        }
                    }
                    if found@.take(i + 1).contains(y) && y > max_uid {
                        if y == x {
                            assert(r@[pos as int] == y);
                        } else {
                            let k = choose|k: int| 0 <= k < i + 1 && #[trigger] found@.take(i + 1)[k] == y;
                            assert(k < i);
                            assert(found@.take(i as int)[k] == y);
                            assert(found@.take(i as int).contains(y));
                            assert(old_r.contains(y));
                            let k4 = choose|k4: int| 0 <= k4 < old_r.len() && #[trigger] old_r[k4] == y;
                            if k4 < pos {
                                assert(r@[k4] == y);
                            } else {
                                assert(r@[k4 + 1] == y);
                            }
                        }
                    }
                }
            }
        } else {
            assert forall|y: u32| #[trigger] r@.contains(y) <==> (found@.take(i + 1).contains(y)
                && y > max_uid) by {
                if found@.take(i + 1).contains(y) && y > max_uid {
                    let k = choose|k: int| 0 <= k < i + 1 && #[trigger] found@.take(i + 1)[k] == y;
                    assert(found@.take(i as int)[k] == y);
                }
            }
        }
        i = i + 1;
    }
    assert(found@.take(found@.len() as int) =~= found@);
    r
}

/* ---------- POP3 polling ---------- */

/// What one POP3 poll does.
#[derive(Debug, PartialEq)]
pub enum PollPlan {
    /// First connection: mark all these UIDLs (and the baseline marker) seen.
    Baseline(Vec<String>),
    /// Fetch these (message number, UIDL) pairs, at most `MAX_PER_POLL`.
    Fetch(Vec<(u32, String)>),
}

/// A poll plan as plain values.
pub enum PlanView {
    Baseline(Seq<Seq<char>>),
    Fetch(Seq<(u32, Seq<char>)>),
}

impl View for PollPlan {
    type V = PlanView;

    open spec fn view(&self) -> PlanView {
        match self {
            PollPlan::Baseline(v) => PlanView::Baseline(v@.map_values(|s: String| s@)),
            PollPlan::Fetch(v) => PlanView::Fetch(v@.map_values(|p: (u32, String)| (p.0, p.1@))),
        }
    }
}

/// The listed messages whose UIDL has not been seen, in listing order.
pub open spec fn unseen(seen: Seq<Seq<char>>, uidls: Seq<(u32, Seq<char>)>) -> Seq<(u32, Seq<char>)>
    decreases uidls.len(),
{
    if uidls.len() == 0 {
        Seq::empty()
    } else {
        unseen(seen, uidls.drop_last()) + if seen.contains(uidls.last().1) {
            Seq::empty()
        } else {
            seq![uidls.last()]
        }
    }
}

/// The poll plan: without the baseline marker among the seen UIDLs, a
/// baseline of every listed UIDL plus the marker; otherwise the first
/// `MAX_PER_POLL` unseen messages.
pub open spec fn poll_plan(seen: Seq<Seq<char>>, uidls: Seq<(u32, Seq<char>)>) -> PlanView {
    if !seen.contains(baseline_uidl()) {
        PlanView::Baseline(uidls.map_values(|p: (u32, Seq<char>)| p.1).push(baseline_uidl()))
    } else {
        let u = unseen(seen, uidls);
        PlanView::Fetch(if u.len() <= MAX_PER_POLL { u } else { u.take(MAX_PER_POLL as int) })
    }
}

fn contains_string(v: &[String], s: &String) -> (r: bool)
    ensures
        r == v@.map_values(|x: String| x@).contains(s@),
{
    let ghost vv = v@.map_values(|x: String| x@);
    let mut i: usize = 0;
    while i < v.len()
        invariant
            i <= v@.len(),
            vv == v@.map_values(|x: String| x@),
            forall|k: int| 0 <= k < i ==> vv[k] != s@,
        decreases v.len() - i,
    {
        if v[i] == *s {
            assert(vv[i as int] == s@);
            return true;
        }
        i = i + 1;
    }
    false
}

/// Decides what one POP3 poll does, given the UIDLs already seen for the
/// account and the server's UIDL listing.
pub fn plan_poll(seen: &[String], uidls: &[(u32, String)]) -> (r: PollPlan)
    ensures
        r@ == poll_plan(
            seen@.map_values(|x: String| x@),
            uidls@.map_values(|p: (u32, String)| (p.0, p.1@)),
        ),
{
    let ghost sv = seen@.map_values(|x: String| x@);
    let ghost uv = uidls@.map_values(|p: (u32, String)| (p.0, p.1@));
    let marker = baseline_uidl_string();
    if !contains_string(seen, &marker) {
        let mut marks: Vec<String> = Vec::new();
        let mut i: usize = 0;
        while i < uidls.len()
            invariant
                i <= uidls@.len(),
                uv == uidls@.map_values(|p: (u32, String)| (p.0, p.1@)),
                marks@.map_values(|x: String| x@) =~= uv.take(i as int).map_values(
                    |p: (u32, Seq<char>)| p.1,
                ),
            decreases uidls.len() - i,
        {
            let ghost before = marks@.map_values(|x: String| x@);
            marks.push(uidls[i].1.clone());
            assert(marks@.map_values(|x: String| x@) =~= before.push(uidls@[i as int].1@));
            assert(uv.take(i + 1).map_values(|p: (u32, Seq<char>)| p.1) =~= uv.take(i as int).map_values(
                |p: (u32, Seq<char>)| p.1,
            ).push(uidls@[i as int].1@));
            i = i + 1;
        }
        marks.push(marker);
        assert(uv.take(uidls@.len() as int) =~= uv);
        let r = PollPlan::Baseline(marks);
        assert(r@ == poll_plan(sv, uv)) by {
            assert(marks@.map_values(|x: String| x@) =~= uv.map_values(|p: (u32, Seq<char>)| p.1).push(
                baseline_uidl(),
            ));
        }
        return r;
    }
    let mut fetch: Vec<(u32, String)> = Vec::new();
    let mut i: usize = 0;
    while i < uidls.len()
        invariant
            i <= uidls@.len(),
            sv == seen@.map_values(|x: String| x@),
            uv == uidls@.map_values(|p: (u32, String)| (p.0, p.1@)),
            fetch@.map_values(|p: (u32, String)| (p.0, p.1@)) == (if unseen(sv, uv.take(i as int)).len()
                <= MAX_PER_POLL {
                unseen(sv, uv.take(i as int))
            } else {
                unseen(sv, uv.take(i as int)).take(MAX_PER_POLL as int)
            }),
        decreases uidls.len() - i,
    {
        assert(uv.take(i + 1).drop_last() =~= uv.take(i as int));
        assert(uv.take(i + 1).last() == (uidls@[i as int].0, uidls@[i as int].1@));
        let ghost before = unseen(sv, uv.take(i as int));
        let ghost old_fetch = fetch@.map_values(|p: (u32, String)| (p.0, p.1@));
        let is_seen = contains_string(seen, &uidls[i].1);
        assert(unseen(sv, uv.take(i + 1)) == before + if sv.contains(uidls@[i as int].1@) {
            Seq::<(u32, Seq<char>)>::empty()
        } else {
            seq![(uidls@[i as int].0, uidls@[i as int].1@)]
        });
        if !is_seen && fetch.len() < MAX_PER_POLL {
            fetch.push((uidls[i].0, uidls[i].1.clone()));
            assert(fetch@.map_values(|p: (u32, String)| (p.0, p.1@)) =~= old_fetch.push(
                (uidls@[i as int].0, uidls@[i as int].1@),
            ));
        }
        proof {
            if before.len() >= MAX_PER_POLL {
                assert(unseen(sv, uv.take(i + 1)).take(MAX_PER_POLL as int) =~= before.take(
                    MAX_PER_POLL as int,
                ));
            }
        }
        assert(fetch@.map_values(|p: (u32, String)| (p.0, p.1@)) =~= (if unseen(sv, uv.take(i + 1)).len()
            <= MAX_PER_POLL {
            unseen(sv, uv.take(i + 1))
        } else {
            unseen(sv, uv.take(i + 1)).take(MAX_PER_POLL as int)
        }));
        i = i + 1;
    }
    assert(uv.take(uidls@.len() as int) =~= uv);
    PollPlan::Fetch(fetch)
}

proof fn lemma_unseen_not_seen(seen: Seq<Seq<char>>, uidls: Seq<(u32, Seq<char>)>)
    ensures
        forall|i: int| 0 <= i < unseen(seen, uidls).len() ==> !seen.contains(#[trigger] unseen(seen, uidls)[i].1),
    decreases uidls.len(),
{
    if uidls.len() > 0 {
        lemma_unseen_not_seen(seen, uidls.drop_last());
        let a = unseen(seen, uidls.drop_last());
        let u = unseen(seen, uidls);
        assert forall|i: int| 0 <= i < u.len() implies !seen.contains(#[trigger] u[i].1) by {
            if i < a.len() {
                assert(u[i] == a[i]);
            } else {
                assert(u[i] == uidls.last());
            }
        }
    }
}

/// A mail is fetched once: after the UIDLs of a fetch are marked seen, no
/// later poll, whatever the server lists, fetches any of them again.
pub proof fn lemma_fetched_once(seen: Seq<Seq<char>>, uidls: Seq<(u32, Seq<char>)>, later: Seq<(u32, Seq<char>)>)
    requires
        poll_plan(seen, uidls) is Fetch,
    ensures
        ({
            let fetched = (poll_plan(seen, uidls)->Fetch_0).map_values(|p: (u32, Seq<char>)| p.1);
            &&& poll_plan(seen + fetched, later) is Fetch
            &&& forall|i: int|
                0 <= i < (poll_plan(seen + fetched, later)->Fetch_0).len() ==> !fetched.contains(
                    #[trigger] (poll_plan(seen + fetched, later)->Fetch_0)[i].1,
                )
        }),
{
    let fetched = (poll_plan(seen, uidls)->Fetch_0).map_values(|p: (u32, Seq<char>)| p.1);
    let seen2 = seen + fetched;
    assert(seen.contains(baseline_uidl()));
    let k = choose|k: int| 0 <= k < seen.len() && seen[k] == baseline_uidl();
    assert(seen2[k] == baseline_uidl());
    lemma_unseen_not_seen(seen2, later);
    let u = unseen(seen2, later);
    let next = poll_plan(seen2, later)->Fetch_0;
    assert forall|i: int| 0 <= i < next.len() implies !fetched.contains(#[trigger] next[i].1) by {
        assert(next[i] == u[i]);
        assert(!seen2.contains(u[i].1));
        if fetched.contains(u[i].1) {
            let j = choose|j: int| 0 <= j < fetched.len() && fetched[j] == u[i].1;
            assert(seen2[seen.len() + j] == fetched[j]);
        }
    }
}

/// Once a poll has made its baseline (every listed UIDL and the marker marked
/// seen), a poll over the same listing fetches nothing.
pub proof fn lemma_baseline_then_nothing_new(seen: Seq<Seq<char>>, uidls: Seq<(u32, Seq<char>)>)
    requires
        poll_plan(seen, uidls) is Baseline,
    ensures
        poll_plan(seen + (poll_plan(seen, uidls)->Baseline_0), uidls) == PlanView::Fetch(
            Seq::empty(),
        ),
{
    let marks = poll_plan(seen, uidls)->Baseline_0;
    let seen2 = seen + marks;
    assert(seen2.contains(baseline_uidl())) by {
        assert(seen2[seen2.len() - 1] == baseline_uidl());
    }
    assert forall|i: int| 0 <= i < uidls.len() implies seen2.contains(#[trigger] uidls[i].1) by {
        assert(seen2[seen.len() + i] == marks[i]);
    }
    lemma_unseen_empty(seen2, uidls, marks);
    assert(unseen(seen2, uidls) =~= Seq::<(u32, Seq<char>)>::empty());
}

proof fn lemma_unseen_empty(seen: Seq<Seq<char>>, uidls: Seq<(u32, Seq<char>)>, marks: Seq<Seq<char>>)
    requires
        forall|i: int| 0 <= i < uidls.len() ==> seen.contains(#[trigger] uidls[i].1),
    ensures
        unseen(seen, uidls).len() == 0,
    decreases uidls.len(),
{
    if uidls.len() > 0 {
        assert(seen.contains(uidls[uidls.len() - 1].1));
        lemma_unseen_empty(seen, uidls.drop_last(), marks);
    }
}

/* ---------- turning a mail into a record ---------- */

/// `s` cut to at most `max` characters.
pub open spec fn truncated(s: Seq<char>, max: nat) -> Seq<char> {
    if s.len() <= max {
        s
    } else {
        s.take(max as int)
    }
}

/// Cuts `s` to at most `max` characters (characters, not bytes, so that no
/// character is split).
pub fn truncate_chars(s: &str, max: usize) -> (r: String)
    ensures
        r@ == truncated(s@, max as nat),
{
    let v = chars_of(s);
    if v.len() <= max {
        string_from_chars(v.as_slice())
    } else {
        let w = subvec(&v, 0, max);
        string_from_chars(w.as_slice())
    }
}

/// The record a received mail becomes, when it holds a code: the source
/// names the account, the body is cut to 500 characters and a mail without a
/// date is stamped `now`; `None` when the mail holds no code.
pub fn prepare_mail_record(display_name: &str, mail: &ParsedMail, now: i64) -> (r: Option<PendingRecord>)
    ensures
        match extracted_code(mail.text@) {
            None => r is None,
            Some(c) => (r matches Some(p) && p.code@ == c && p.source@ == "email:"@ + display_name@
                && p.sender.deep_view() == mail.sender.deep_view() && p.body@ == truncated(
                mail.text@,
                500,
            ) && p.received_at == (match mail.received_at {
                Some(t) => t,
                None => now,
            })),
        },
{
    let code = match extract_code(mail.text.as_str()) {
        Some(c) => c,
        None => return None,
    };
    let mut source = chars_of("email:");
    append_str(&mut source, display_name);
    let sender = match &mail.sender {
        Some(s) => Some(s.clone()),
        None => None,
    };
    Some(PendingRecord {
        source: string_from_chars(source.as_slice()),
        sender,
        body: truncate_chars(mail.text.as_str(), 500),
        code,
        received_at: match mail.received_at {
            Some(t) => t,
            None => now,
        },
    })
}

/* ---------- settings changes ---------- */

/// An account of `new` has the id and the identity of `a`.
pub open spec fn kept_identity(a: AccountView, new: Seq<AccountView>) -> bool {
    exists|j: int| 0 <= j < new.len() && (#[trigger] new[j]).id == a.id && account_identity(new[j]) == account_identity(a)
}

/// The ids of the old accounts whose seen-mail records and IMAP state must be
/// cleared after a settings change: those removed, and those whose identity
/// (host and user name) changed.
pub open spec fn reset_ids(old: Seq<AccountView>, new: Seq<AccountView>) -> Seq<Seq<char>>
    decreases old.len(),
{
    if old.len() == 0 {
        Seq::empty()
    } else {
        reset_ids(old.drop_last(), new) + if kept_identity(old.last(), new) {
            Seq::empty()
        } else {
            seq![old.last().id]
        }
    }
}

/// See `reset_ids`.
pub fn accounts_needing_reset(old: &[EmailAccount], new: &[EmailAccount]) -> (r: Vec<String>)
    ensures
        r@.map_values(|s: String| s@) == reset_ids(accounts_view(old@), accounts_view(new@)),
{
    let ghost ov = accounts_view(old@);
    let ghost nv = accounts_view(new@);
    let mut out: Vec<String> = Vec::new();
    let mut i: usize = 0;
    while i < old.len()
        invariant
            i <= old@.len(),
            ov == accounts_view(old@),
            nv == accounts_view(new@),
            out@.map_values(|s: String| s@) =~= reset_ids(ov.take(i as int), nv),
        decreases old.len() - i,
    {
        let a = &old[i];
        let ida = a.identity();
        let mut kept = false;
        let mut j: usize = 0;
        while j < new.len()
            invariant
                j <= new@.len(),
                nv == accounts_view(new@),
                ida@ == account_identity(a@),
                kept == exists|k: int| 0 <= k < j && (#[trigger] nv[k]).id == a@.id && account_identity(nv[k]) == account_identity(a@),
            decreases new.len() - j,
        {
            if new[j].id == a.id {
                let idb = new[j].identity();
                if idb == ida {
                    assert(nv[j as int].id == a@.id && account_identity(nv[j as int]) == account_identity(a@));
                    kept = true;
                }
            }
            j = j + 1;
        }
        assert(ov.take(i + 1).drop_last() =~= ov.take(i as int));
        assert(ov.take(i + 1).last() == a@);
        if !kept {
            out.push(a.id.clone());
        }
        i = i + 1;
    }
    assert(ov.take(old@.len() as int) =~= ov);
    out
}

} // verus!
