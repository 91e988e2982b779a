//! Persisted account identities and invariants for multi-account WhatsApp.
//!
//! Account 1 is special: it represents the pre-multi-account WhatsApp session
//! and therefore keeps using the historical WebKit storage location.
//! Additional accounts receive their own storage directory. Keeping that
//! distinction in the model lets migration add metadata without moving,
//! copying, or invalidating the existing WhatsApp session.

use std::collections::HashSet;
use vstd::prelude::*;

use crate::text::{
    decimal, is_digit, lemma_decimal_digits, lemma_trim_clean_edges, lemma_trim_of_clean,
    push_decimal, string_from_chars, trim, trim_str,
};

verus! {

broadcast use vstd::std_specs::hash::group_hash_axioms;

pub type AccountId = u32;

/// Stable id reserved for the session that existed before multi-account support.
pub const PRIMARY_ACCOUNT_ID: AccountId = 1;

/// The first id handed to an account created after the legacy one.
pub const FIRST_DYNAMIC_ACCOUNT_ID: AccountId = PRIMARY_ACCOUNT_ID + 1;

/// `Account <id>`: the name an account gets when it is given none.
pub open spec fn default_account_name(id: u32) -> Seq<char> {
    seq!['A', 'c', 'c', 'o', 'u', 'n', 't', ' '] + decimal(id as nat)
}

/// The display name stored for `name`: trimmed, or the default name when
/// nothing but white space is left.
pub open spec fn normal_name(id: u32, name: Seq<char>) -> Seq<char> {
    if trim(name).len() == 0 {
        default_account_name(id)
    } else {
        trim(name)
    }
}

/// Whether some entry of `es` has id `id`.
pub open spec fn has_id(es: Seq<(u32, Seq<char>)>, id: u32) -> bool {
    exists|i: int| 0 <= i < es.len() && (#[trigger] es[i]).0 == id
}

/// `k` is the position of the first entry of `es` with id `id`.
pub open spec fn is_first_index(es: Seq<(u32, Seq<char>)>, id: u32, k: int) -> bool {
    &&& 0 <= k < es.len()
    &&& es[k].0 == id
    &&& forall|j: int| 0 <= j < k ==> (#[trigger] es[j]).0 != id
}

/// The invariant of a repaired account collection: at least one account,
/// non-zero and pairwise distinct ids, normalized names, an active id that
/// exists, and a next id that is at least 2 and above every id in use (or
/// pinned at `u32::MAX` once the id space is used up).
pub open spec fn valid_state(es: Seq<(u32, Seq<char>)>, active: u32, next: u32) -> bool {
    &&& es.len() >= 1
    &&& forall|i: int|
        0 <= i < es.len() ==> (#[trigger] es[i]).0 != 0 && es[i].1 == normal_name(es[i].0, es[i].1)
    &&& forall|i: int, j: int| 0 <= i < j < es.len() ==> (#[trigger] es[i]).0 != (#[trigger] es[j]).0
    &&& has_id(es, active)
    &&& next >= 2
    &&& forall|i: int| 0 <= i < es.len() ==> (#[trigger] es[i]).0 < next || next == u32::MAX
}

/// The entries of `es` whose id is non-zero and not already used by an
/// earlier entry: the first valid occurrence of an id wins.
pub open spec fn dedup_ids(es: Seq<(u32, Seq<char>)>) -> Seq<(u32, Seq<char>)>
    decreases es.len(),
{
    if es.len() == 0 {
        es
    } else {
        let rest = dedup_ids(es.drop_last());
        let e = es.last();
        if e.0 != 0 && !has_id(es.drop_last(), e.0) {
            rest.push(e)
        } else {
            rest
        }
    }
}

pub open spec fn with_normal_names(es: Seq<(u32, Seq<char>)>) -> Seq<(u32, Seq<char>)> {
    es.map_values(|e: (u32, Seq<char>)| (e.0, normal_name(e.0, e.1)))
}

/// The largest id in `es` (0 for no entries).
pub open spec fn max_id(es: Seq<(u32, Seq<char>)>) -> u32
    decreases es.len(),
{
    if es.len() == 0 {
        0
    } else {
        let m = max_id(es.drop_last());
        if es.last().0 > m {
            es.last().0
        } else {
            m
        }
    }
}

/// The smallest next id compatible with the ids in `es`: one past the largest,
/// or `u32::MAX` when that would overflow.
pub open spec fn next_floor(es: Seq<(u32, Seq<char>)>) -> u32 {
    if max_id(es) == u32::MAX {
        u32::MAX
    } else {
        (max_id(es) + 1) as u32
    }
}

pub open spec fn max3(a: u32, b: u32, c: u32) -> u32 {
    let m = if a >= b {
        a
    } else {
        b
    };
    if m >= c {
        m
    } else {
        c
    }
}

/// The repaired form of a collection with entries `es`, active id `active` and
/// next id `next`, as `(entries, active id, next id)`.
pub open spec fn normalized(es: Seq<(u32, Seq<char>)>, active: u32, next: u32) -> (
    Seq<(u32, Seq<char>)>,
    u32,
    u32,
) {
    let kept = with_normal_names(dedup_ids(es));
    if kept.len() == 0 {
        (
            seq![(PRIMARY_ACCOUNT_ID, default_account_name(PRIMARY_ACCOUNT_ID))],
            PRIMARY_ACCOUNT_ID,
            FIRST_DYNAMIC_ACCOUNT_ID,
        )
    } else {
        (
            kept,
            if has_id(kept, active) {
                active
            } else {
                kept[0].0
            },
            max3(next, next_floor(kept), FIRST_DYNAMIC_ACCOUNT_ID),
        )
    }
}

#[derive(Debug, Clone, PartialEq, Eq)]
pub struct Account {
    pub id: AccountId,
    pub name: String,
}

impl View for Account {
    type V = (u32, Seq<char>);

    open spec fn view(&self) -> (u32, Seq<char>) {
        (self.id, self.name@)
    }
}

fn default_name(id: AccountId) -> (r: String)
    ensures
        r@ == default_account_name(id),
{
    let mut cs: Vec<char> = Vec::new();
    cs.push('A');
    cs.push('c');
    cs.push('c');
    cs.push('o');
    cs.push('u');
    cs.push('n');
    cs.push('t');
    cs.push(' ');
    push_decimal(&mut cs, id);
    proof {
        assert(cs@ =~= default_account_name(id));
    }
    string_from_chars(cs.as_slice())
}

/// The default name has no white space at either end, so it is its own trim.
proof fn lemma_default_name_clean(id: u32)
    ensures
        trim(default_account_name(id)) == default_account_name(id),
        default_account_name(id).len() > 0,
{
    let d = default_account_name(id);
    lemma_decimal_digits(id as nat);
    assert(d[0] == 'A');
    assert(d.last() == decimal(id as nat).last());
    assert(is_digit(decimal(id as nat).last()));
    lemma_trim_of_clean(d);
}

/// Normalizing a name twice changes nothing more than normalizing it once.
pub proof fn lemma_normal_name_idempotent(id: u32, name: Seq<char>)
    ensures
        normal_name(id, normal_name(id, name)) == normal_name(id, name),
{
    lemma_default_name_clean(id);
    lemma_trim_clean_edges(name);
    if trim(name).len() != 0 {
        lemma_trim_of_clean(trim(name));
    }
}

proof fn lemma_has_id_push(s: Seq<(u32, Seq<char>)>, e: (u32, Seq<char>), x: u32)
    ensures
        has_id(s.push(e), x) <==> (has_id(s, x) || e.0 == x),
{
    let t = s.push(e);
    if has_id(s, x) {
        let i = choose|i: int| 0 <= i < s.len() && (#[trigger] s[i]).0 == x;
        assert(t[i] == s[i]);
    }
    if e.0 == x {
        assert(t[s.len() as int] == e);
    }
    if has_id(t, x) {
        let i = choose|i: int| 0 <= i < t.len() && (#[trigger] t[i]).0 == x;
        if i < s.len() {
            assert(s[i] == t[i]);
        }
    }
}

/// What `dedup_ids` keeps: non-zero, pairwise distinct ids, and exactly the
/// non-zero ids of its input.
pub proof fn lemma_dedup_ids(es: Seq<(u32, Seq<char>)>)
    ensures
        forall|i: int| 0 <= i < dedup_ids(es).len() ==> (#[trigger] dedup_ids(es)[i]).0 != 0,
        forall|i: int, j: int|
            0 <= i < j < dedup_ids(es).len() ==> (#[trigger] dedup_ids(es)[i]).0 != (
            #[trigger] dedup_ids(es)[j]).0,
        forall|x: u32| has_id(dedup_ids(es), x) <==> (x != 0 && has_id(es, x)),
    decreases es.len(),
{
    if es.len() > 0 {
        let rest = es.drop_last();
        let e = es.last();
        lemma_dedup_ids(rest);
        assert(es == rest.push(e));
        assert forall|x: u32| has_id(es, x) <==> (has_id(rest, x) || e.0 == x) by {
            lemma_has_id_push(rest, e, x);
        }
        if e.0 != 0 && !has_id(rest, e.0) {
            let d = dedup_ids(rest);
            assert forall|x: u32| has_id(d.push(e), x) <==> (has_id(d, x) || e.0 == x) by {
                lemma_has_id_push(d, e, x);
            }
            assert forall|i: int, j: int|
                0 <= i < j < d.push(e).len() implies (#[trigger] d.push(e)[i]).0 != (
            #[trigger] d.push(e)[j]).0 by {
                if j == d.len() {
                    assert(d.push(e)[i] == d[i]);
                    if d[i].0 == e.0 {
                        assert(has_id(d, e.0));
                    }
                } else {
                    assert(d.push(e)[i] == d[i]);
                    assert(d.push(e)[j] == d[j]);
                }
            }
        }
    }
}

proof fn lemma_max_id(es: Seq<(u32, Seq<char>)>)
    ensures
        forall|i: int| 0 <= i < es.len() ==> (#[trigger] es[i]).0 <= max_id(es),
    decreases es.len(),
{
    if es.len() > 0 {
        lemma_max_id(es.drop_last());
        assert forall|i: int| 0 <= i < es.len() implies (#[trigger] es[i]).0 <= max_id(es) by {
            if i < es.len() - 1 {
                assert(es[i] == es.drop_last()[i]);
            }
        }
    }
}

/// Every repaired collection satisfies the invariant.
proof fn lemma_normalized_valid(es: Seq<(u32, Seq<char>)>, active: u32, next: u32)
    requires
        with_normal_names(dedup_ids(es)).len() > 0,
    ensures
        ({
            let kept = with_normal_names(dedup_ids(es));
            valid_state(
                kept,
                if has_id(kept, active) {
                    active
                } else {
                    kept[0].0
                },
                max3(next, next_floor(kept), FIRST_DYNAMIC_ACCOUNT_ID),
            )
        }),
{
    let d = dedup_ids(es);
    let kept = with_normal_names(d);
    lemma_dedup_ids(es);
    lemma_max_id(kept);
    assert forall|i: int| 0 <= i < kept.len() implies (#[trigger] kept[i]).0 != 0 && kept[i].1
        == normal_name(kept[i].0, kept[i].1) by {
        assert(kept[i].0 == d[i].0);
        lemma_normal_name_idempotent(d[i].0, d[i].1);
    }
    assert forall|i: int, j: int| 0 <= i < j < kept.len() implies (#[trigger] kept[i]).0 != (
    #[trigger] kept[j]).0 by {
        assert(kept[i].0 == d[i].0);
        assert(kept[j].0 == d[j].0);
    }
    let a = if has_id(kept, active) {
        active
    } else {
        kept[0].0
    };
    assert(has_id(kept, a)) by {
        if !has_id(kept, active) {
            assert(kept[0].0 == a);
        }
    }
}

/// The smallest id that `add` may hand out: `max(next_id, 2)`.
pub open spec fn id_base(a: Accounts) -> u32 {
    if a.next_id >= FIRST_DYNAMIC_ACCOUNT_ID {
        a.next_id
    } else {
        FIRST_DYNAMIC_ACCOUNT_ID
    }
}

/// `post` is `pre` after `add(name)` succeeded with `account`: the first free
/// id at or above `id_base(pre)`, appended, made active, with `next_id` moved
/// past it.
pub open spec fn added(pre: Accounts, post: Accounts, name: Seq<char>, account: Account) -> bool {
    &&& id_base(pre) <= account.id
    &&& !has_id(pre.entries(), account.id)
    &&& forall|c: u32| id_base(pre) <= c < account.id ==> has_id(pre.entries(), c)
    &&& account.name@ == normal_name(account.id, name)
    &&& post.entries() == pre.entries().push(account@)
    &&& post.active_id == account.id
    &&& post.next_id == (if account.id == u32::MAX {
        u32::MAX
    } else {
        (account.id + 1) as u32
    })
}

/// `post` is `pre` after `remove(id)` succeeded with `account`: the first
/// account with that id is taken out, and when it was the active one the
/// first remaining account becomes active; `next_id` is kept.
pub open spec fn removed(pre: Accounts, post: Accounts, id: u32, account: Account) -> bool {
    &&& exists|k: int|
        is_first_index(pre.entries(), id, k) && account == pre.items@[k] && post.items@
            == pre.items@.remove(k)
    &&& post.active_id == (if pre.active_id == id {
        post.items@[0].id
    } else {
        pre.active_id
    })
    &&& post.next_id == pre.next_id
}

/// Deleting an account never lets its id come back: in a valid collection,
/// after removing the account with id `id`, the next account added gets
/// another id. (`u32::MAX` is left out: once it is in use the id space is
/// exhausted and `next_id` is pinned there.)
pub proof fn lemma_removed_id_not_reused(
    a0: Accounts,
    a1: Accounts,
    a2: Accounts,
    id: u32,
    gone: Account,
    name: Seq<char>,
    account: Account,
)
    requires
        a0.wf(),
        removed(a0, a1, id, gone),
        added(a1, a2, name, account),
        id != u32::MAX,
    ensures
        account.id != id,
{
    let k = choose|k: int|
        is_first_index(a0.entries(), id, k) && gone == a0.items@[k] && a1.items@ == a0.items@.remove(
            k,
        );
    assert(a0.entries()[k].0 == id);
}

/// A collection that already satisfies the invariant is left exactly as it
/// is by `normalize`: repairing is metadata-only and never touches valid state.
pub proof fn lemma_normalize_keeps_valid(es: Seq<(u32, Seq<char>)>, active: u32, next: u32)
    requires
        valid_state(es, active, next),
    ensures
        normalized(es, active, next) == (es, active, next),
{
    lemma_dedup_of_distinct(es);
    assert forall|i: int| 0 <= i < es.len() implies #[trigger] with_normal_names(es)[i] == es[i] by {
    }
    assert(with_normal_names(es) =~= es);
    lemma_max_id(es);
    lemma_max_id_present(es);
}

/// Normalizing twice gives the same result as normalizing once.
pub proof fn lemma_normalize_idempotent(es: Seq<(u32, Seq<char>)>, active: u32, next: u32)
    ensures
        ({
            let (es1, a1, n1) = normalized(es, active, next);
            normalized(es1, a1, n1) == (es1, a1, n1)
        }),
{
    let (es1, a1, n1) = normalized(es, active, next);
    if with_normal_names(dedup_ids(es)).len() == 0 {
        lemma_default_name_clean(PRIMARY_ACCOUNT_ID);
        assert(es1[0].0 == PRIMARY_ACCOUNT_ID);
        assert(valid_state(es1, a1, n1));
    } else {
        lemma_normalized_valid(es, active, next);
    }
    lemma_normalize_keeps_valid(es1, a1, n1);
}

/// Repairing never moves `next_id` backwards as long as some account has a
/// valid (non-zero) id. (A collection with no valid id at all is replaced by
/// a fresh one, whose `next_id` is 2.)
pub proof fn lemma_normalize_never_rewinds(es: Seq<(u32, Seq<char>)>, active: u32, next: u32)
    requires
        exists|i: int| 0 <= i < es.len() && (#[trigger] es[i]).0 != 0,
    ensures
        normalized(es, active, next).2 >= next,
{
    let i = choose|i: int| 0 <= i < es.len() && (#[trigger] es[i]).0 != 0;
    lemma_dedup_ids(es);
    assert(has_id(es, es[i].0));
    assert(has_id(dedup_ids(es), es[i].0));
}

proof fn lemma_dedup_of_distinct(es: Seq<(u32, Seq<char>)>)
    requires
        forall|i: int| 0 <= i < es.len() ==> (#[trigger] es[i]).0 != 0,
        forall|i: int, j: int| 0 <= i < j < es.len() ==> (#[trigger] es[i]).0 != (#[trigger] es[j]).0,
    ensures
        dedup_ids(es) == es,
    decreases es.len(),
{
    if es.len() > 0 {
        let rest = es.drop_last();
        assert forall|i: int, j: int| 0 <= i < j < rest.len() implies (#[trigger] rest[i]).0 != (
        #[trigger] rest[j]).0 by {
            assert(rest[i] == es[i]);
            assert(rest[j] == es[j]);
        }
        assert forall|i: int| 0 <= i < rest.len() implies (#[trigger] rest[i]).0 != 0 by {
            assert(rest[i] == es[i]);
        }
        lemma_dedup_of_distinct(rest);
        if has_id(rest, es.last().0) {
            let i = choose|i: int| 0 <= i < rest.len() && (#[trigger] rest[i]).0 == es.last().0;
            assert(rest[i] == es[i]);
            assert(es[i].0 != es[es.len() - 1].0);
        }
        assert(rest.push(es.last()) =~= es);
    }
}

proof fn lemma_max_id_present(es: Seq<(u32, Seq<char>)>)
    requires
        es.len() > 0,
    ensures
        has_id(es, max_id(es)),
    decreases es.len(),
{
    let rest = es.drop_last();
    if es.last().0 > max_id(rest) || rest.len() == 0 {
        assert(es[es.len() - 1].0 == es.last().0);
        if rest.len() == 0 && !(es.last().0 > max_id(rest)) {
            assert(es.last().0 == 0);
        }
    } else {
        lemma_max_id_present(rest);
        let i = choose|i: int| 0 <= i < rest.len() && (#[trigger] rest[i]).0 == max_id(rest);
        assert(es[i] == rest[i]);
    }
}

proof fn lemma_add_keeps_valid(pre: Accounts, post: Accounts, name: Seq<char>, account: Account)
    requires
        pre.wf(),
        added(pre, post, name, account),
    ensures
        post.wf(),
{
    let es = pre.entries();
    let es2 = post.entries();
    lemma_normal_name_idempotent(account.id, name);
    assert(es2[es.len() as int] == account@);
    assert forall|i: int| 0 <= i < es2.len() implies (#[trigger] es2[i]).0 != 0 && es2[i].1
        == normal_name(es2[i].0, es2[i].1) by {
        if i < es.len() {
            assert(es2[i] == es[i]);
        }
    }
    assert forall|i: int, j: int| 0 <= i < j < es2.len() implies (#[trigger] es2[i]).0 != (
    #[trigger] es2[j]).0 by {
        assert(es2[i] == es[i]);
        if j < es.len() {
            assert(es2[j] == es[j]);
        } else {
            if es[i].0 == account.id {
                assert(has_id(es, account.id));
            }
        }
    }
    assert(has_id(es2, post.active_id));
    assert forall|i: int| 0 <= i < es2.len() implies (#[trigger] es2[i]).0 < post.next_id
        || post.next_id == u32::MAX by {
        if i < es.len() {
            assert(es2[i] == es[i]);
        }
    }
}

proof fn lemma_rename_keeps_valid(
    es: Seq<(u32, Seq<char>)>,
    active: u32,
    next: u32,
    k: int,
    id: u32,
    name: Seq<char>,
)
    requires
        valid_state(es, active, next),
        is_first_index(es, id, k),
    ensures
        valid_state(es.update(k, (id, normal_name(id, name))), active, next),
{
    let es2 = es.update(k, (id, normal_name(id, name)));
    lemma_normal_name_idempotent(id, name);
    assert forall|i: int| 0 <= i < es2.len() implies (#[trigger] es2[i]).0 == es[i].0 by {}
    let w = choose|i: int| 0 <= i < es.len() && (#[trigger] es[i]).0 == active;
    assert(es2[w].0 == active);
}

proof fn lemma_remove_keeps_valid(es: Seq<(u32, Seq<char>)>, active: u32, next: u32, k: int)
    requires
        valid_state(es, active, next),
        0 <= k < es.len(),
        es.len() > 1,
    ensures
        valid_state(
            es.remove(k),
            if active == es[k].0 {
                es.remove(k)[0].0
            } else {
                active
            },
            next,
        ),
{
    let es2 = es.remove(k);
    assert forall|i: int| 0 <= i < es2.len() implies #[trigger] es2[i] == es[if i < k {
        i
    } else {
        i + 1
    }] by {}
    if active != es[k].0 {
        let w = choose|i: int| 0 <= i < es.len() && (#[trigger] es[i]).0 == active;
        assert(w != k);
        let w2 = if w < k {
            w
        } else {
            w - 1
        };
        assert(es2[w2] == es[w]);
    } else {
        assert(es2[0].0 == es.remove(k)[0].0);
    }
    assert forall|i: int, j: int| 0 <= i < j < es2.len() implies (#[trigger] es2[i]).0 != (
    #[trigger] es2[j]).0 by {
        let ii = if i < k {
            i
        } else {
            i + 1
        };
        let jj = if j < k {
            j
        } else {
            j + 1
        };
        assert(es2[i] == es[ii]);
        assert(es2[j] == es[jj]);
    }
}

impl Account {
    /// An account with the given id and the normalized form of `name`.
    pub fn new(id: AccountId, name: &str) -> (r: Account)
        ensures
            r.id == id,
            r.name@ == normal_name(id, name@),
    {
        let mut account = Account { id, name: String::from_str(name) };
        account.normalize_name();
        account
    }

    /// Account 1 deliberately keeps the legacy WebKit profile. This is the
    /// migration guarantee that preserves an already-linked WhatsApp session.
    pub fn uses_legacy_storage(&self) -> (r: bool)
        ensures
            r == (self.id == PRIMARY_ACCOUNT_ID),
    {
        self.id == PRIMARY_ACCOUNT_ID
    }

    fn normalize_name(&mut self)
        ensures
            final(self).id == old(self).id,
            final(self).name@ == normal_name(old(self).id, old(self).name@),
    {
        let trimmed = trim_str(self.name.as_str());
        if trimmed.as_str().is_empty() {
            self.name = default_name(self.id);
        } else {
            self.name = trimmed;
        }
    }
}

/// Persisted account collection. IDs are stable and monotonically allocated;
/// deleting an account never rewinds `next_id`, so a removed profile id cannot
/// silently become a different WhatsApp session.
#[derive(Debug, Clone, PartialEq, Eq)]
pub struct Accounts {
    pub items: Vec<Account>,
    pub active_id: AccountId,
    pub next_id: AccountId,
}

impl Default for Accounts {
    fn default() -> (r: Accounts)
        ensures
            r.entries() == Accounts::default_entries(),
            r.active_id == PRIMARY_ACCOUNT_ID,
            r.next_id == FIRST_DYNAMIC_ACCOUNT_ID,
            r.wf(),
    {
        let name = default_name(PRIMARY_ACCOUNT_ID);
        let primary = Account::new(PRIMARY_ACCOUNT_ID, name.as_str());
        let mut items: Vec<Account> = Vec::new();
        items.push(primary);
        let r = Accounts { items, active_id: PRIMARY_ACCOUNT_ID, next_id: FIRST_DYNAMIC_ACCOUNT_ID };
        proof {
            lemma_default_name_clean(PRIMARY_ACCOUNT_ID);
            assert(r.entries() =~= seq![(PRIMARY_ACCOUNT_ID, default_account_name(PRIMARY_ACCOUNT_ID))]);
            assert(r.entries()[0].0 == PRIMARY_ACCOUNT_ID);
        }
        r
    }
}

/// Why an account operation was refused.
#[derive(Debug, Clone, Copy, PartialEq, Eq)]
pub enum AccountError {
    NotFound,
    LastAccount,
    IdExhausted,
}

impl Accounts {
    /// The entries of a fresh collection: only the legacy account 1.
    pub open spec fn default_entries() -> Seq<(u32, Seq<char>)> {
        seq![(PRIMARY_ACCOUNT_ID, default_account_name(PRIMARY_ACCOUNT_ID))]
    }

    /// The accounts as `(id, name)` pairs, in order.
    pub open spec fn entries(&self) -> Seq<(u32, Seq<char>)> {
        self.items@.map_values(|a: Account| a@)
    }

    pub open spec fn wf(&self) -> bool {
        valid_state(self.entries(), self.active_id, self.next_id)
    }

    /// The first account with id `id`, if there is one.
    pub fn get(&self, id: AccountId) -> (r: Option<&Account>)
        ensures
            match r {
                Some(a) => exists|k: int|
                    is_first_index(self.entries(), id, k) && *a == self.items@[k],
                None => !has_id(self.entries(), id),
            },
    {
        match self.position(id) {
            Some(k) => Some(&self.items[k]),
            None => None,
        }
    }

    /// The active account, which must exist.
    pub fn active(&self) -> (r: &Account)
        requires
            has_id(self.entries(), self.active_id),
        ensures
            exists|k: int| is_first_index(self.entries(), self.active_id, k) && *r == self.items@[k],
    {
        match self.position(self.active_id) {
            Some(k) => &self.items[k],
            None => {
                proof {
                    assert(false);
                }
                &self.items[0]
            },
        }
    }

    fn position(&self, id: AccountId) -> (r: Option<usize>)
        ensures
            match r {
                Some(k) => is_first_index(self.entries(), id, k as int),
                None => !has_id(self.entries(), id),
            },
    {
        let mut i: usize = 0;
        while i < self.items.len()
            invariant
                i <= self.items@.len(),
                forall|j: int| 0 <= j < i ==> (#[trigger] self.entries()[j]).0 != id,
            decreases self.items@.len() - i,
        {
            if self.items[i].id == id {
                proof {
                    assert(self.entries()[i as int].0 == id);
                }
                return Some(i);
            }
            proof {
                assert(self.entries()[i as int].0 != id);
            }
            i = i + 1;
        }
        None
    }

    /// Adds an account named `name` with the first free id at or above
    /// `max(next_id, 2)`, makes it active and moves `next_id` past it.
    pub fn add(&mut self, name: &str) -> (r: Result<Account, AccountError>)
        ensures
            match r {
                Ok(account) => added(*old(self), *final(self), name@, account),
                Err(e) => {
                    &&& e == AccountError::IdExhausted
                    &&& forall|c: u32| id_base(*old(self)) <= c ==> has_id(old(self).entries(), c)
                    &&& *final(self) == *old(self)
                },
            },
            old(self).wf() ==> final(self).wf(),
            final(self).next_id >= old(self).next_id,
    {
        let id = match self.next_available_id() {
            Ok(id) => id,
            Err(e) => {
                return Err(e);
            },
        };
        let account = Account::new(id, name);
        let stored = Account { id: account.id, name: account.name.clone() };
        self.items.push(stored);
        self.active_id = id;
        self.next_id = match id.checked_add(1) {
            Some(n) => n,
            None => id,
        };
        proof {
            assert(final(self).entries() =~= old(self).entries().push(account@));
            if old(self).wf() {
                lemma_add_keeps_valid(*old(self), *final(self), name@, account);
            }
        }
        Ok(account)
    }

    /// Renames the first account with id `id` to the normalized `name`.
    pub fn rename(&mut self, id: AccountId, name: &str) -> (r: Result<(), AccountError>)
        ensures
            has_id(old(self).entries(), id) ==> {
                &&& r is Ok
                &&& exists|k: int|
                    is_first_index(old(self).entries(), id, k) && final(self).entries()
                        == old(self).entries().update(k, (id, normal_name(id, name@)))
                &&& final(self).active_id == old(self).active_id
                &&& final(self).next_id == old(self).next_id
            },
            !has_id(old(self).entries(), id) ==> r == Err::<(), AccountError>(
                AccountError::NotFound,
            ) && *final(self) == *old(self),
            old(self).wf() ==> final(self).wf(),
    {
        let k = match self.position(id) {
            Some(k) => k,
            None => {
                return Err(AccountError::NotFound);
            },
        };
        let renamed = Account::new(id, name);
        self.items.set(k, renamed);
        proof {
            assert(final(self).entries() =~= old(self).entries().update(
                k as int,
                (id, normal_name(id, name@)),
            ));
            if old(self).wf() {
                lemma_rename_keeps_valid(
                    old(self).entries(),
                    old(self).active_id,
                    old(self).next_id,
                    k as int,
                    id,
                    name@,
                );
            }
        }
        Ok(())
    }

    /// Makes `id` the active account, if it exists.
    pub fn set_active(&mut self, id: AccountId) -> (r: Result<(), AccountError>)
        ensures
            has_id(old(self).entries(), id) ==> r is Ok && final(self).items == old(self).items
                && final(self).active_id == id && final(self).next_id == old(self).next_id,
            !has_id(old(self).entries(), id) ==> r == Err::<(), AccountError>(
                AccountError::NotFound,
            ) && *final(self) == *old(self),
            old(self).wf() ==> final(self).wf(),
    {
        if self.get(id).is_none() {
            return Err(AccountError::NotFound);
        }
        self.active_id = id;
        Ok(())
    }

    /// Removes the first account with id `id`, unless it is the only one. When
    /// the active account goes, the first remaining account becomes active.
    pub fn remove(&mut self, id: AccountId) -> (r: Result<Account, AccountError>)
        ensures
            !has_id(old(self).entries(), id) ==> r == Err::<Account, AccountError>(
                AccountError::NotFound,
            ) && *final(self) == *old(self),
            has_id(old(self).entries(), id) && old(self).items@.len() <= 1 ==> r == Err::<
                Account,
                AccountError,
            >(AccountError::LastAccount) && *final(self) == *old(self),
            has_id(old(self).entries(), id) && old(self).items@.len() > 1 ==> r is Ok && removed(
                *old(self),
                *final(self),
                id,
                r->Ok_0,
            ),
            old(self).wf() ==> final(self).wf(),
    {
        let index = match self.position(id) {
            Some(k) => k,
            None => {
                return Err(AccountError::NotFound);
            },
        };
        if self.items.len() <= 1 {
            return Err(AccountError::LastAccount);
        }
        let removed = self.items.remove(index);
        proof {
            assert(self.entries() =~= old(self).entries().remove(index as int));
            if old(self).wf() {
                lemma_remove_keeps_valid(
                    old(self).entries(),
                    old(self).active_id,
                    old(self).next_id,
                    index as int,
                );
                assert(self.entries()[0].0 == self.items@[0].id);
            }
        }
        if self.active_id == id {
            self.active_id = self.items[0].id;
        }
        Ok(removed)
    }

    /// Repairs user-edited / partially migrated config without ever touching
    /// WebKit profile data. The first valid occurrence of an id wins; invalid
    /// zero/duplicate ids are discarded, an empty list becomes legacy Account 1,
    /// and `next_id` is advanced past every id that is still present.
    pub fn normalize(&mut self)
        ensures
            (final(self).entries(), final(self).active_id, final(self).next_id) == normalized(
                old(self).entries(),
                old(self).active_id,
                old(self).next_id,
            ),
            final(self).wf(),
    {
        let ghost es = self.entries();
        let n = self.items.len();
        let mut seen: HashSet<u32> = HashSet::new();
        let mut kept: Vec<Account> = Vec::new();
        let mut i: usize = 0;
        while i < n
            invariant
                n == self.items@.len(),
                es == self.entries(),
                i <= n,
                kept@.map_values(|a: Account| a@) == with_normal_names(
                    dedup_ids(es.take(i as int)),
                ),
                forall|x: u32| #[trigger]
                    seen@.contains(x) <==> (x != 0 && has_id(es.take(i as int), x)),
            decreases n - i,
        {
            let id = self.items[i].id;
            let ghost before = kept@;
            let ghost e = es[i as int];
            proof {
                assert(es.take(i as int + 1).drop_last() =~= es.take(i as int));
                assert(es.take(i as int + 1).last() == e);
                assert(es.take(i as int + 1) =~= es.take(i as int).push(e));
                assert forall|x: u32| has_id(es.take(i as int + 1), x) <==> (has_id(
                    es.take(i as int),
                    x,
                ) || e.0 == x) by {
                    lemma_has_id_push(es.take(i as int), e, x);
                }
            }
            if id != 0 && seen.insert(id) {
                let mut a = Account { id, name: self.items[i].name.clone() };
                a.normalize_name();
                kept.push(a);
                proof {
                    assert(kept@.map_values(|a: Account| a@) =~= before.map_values(
                        |a: Account| a@,
                    ).push((e.0, normal_name(e.0, e.1))));
                    assert(with_normal_names(dedup_ids(es.take(i as int + 1))) =~= with_normal_names(
                        dedup_ids(es.take(i as int)),
                    ).push((e.0, normal_name(e.0, e.1))));
                }
            }
            i = i + 1;
        }
        proof {
            assert(es.take(n as int) =~= es);
        }
        if kept.len() == 0 {
            *self = Accounts::default();
            return;
        }
        self.items = kept;
        if self.get(self.active_id).is_none() {
            self.active_id = self.items[0].id;
        }
        let mut m: u32 = 0;
        let mut j: usize = 0;
        while j < self.items.len()
            invariant
                j <= self.items@.len(),
                m == max_id(self.entries().take(j as int)),
            decreases self.items@.len() - j,
        {
            proof {
                assert(self.entries().take(j as int + 1).drop_last() =~= self.entries().take(
                    j as int,
                ));
                assert(self.entries().take(j as int + 1).last() == self.entries()[j as int]);
            }
            if self.items[j].id > m {
                m = self.items[j].id;
            }
            j = j + 1;
        }
        proof {
            assert(self.entries().take(j as int) =~= self.entries());
        }
        let min_next: u32 = if m == u32::MAX {
            u32::MAX
        } else {
            m + 1
        };
        let mut next = self.next_id;
        if min_next > next {
            next = min_next;
        }
        if FIRST_DYNAMIC_ACCOUNT_ID > next {
            next = FIRST_DYNAMIC_ACCOUNT_ID;
        }
        self.next_id = next;
        proof {
            lemma_normalized_valid(es, old(self).active_id, old(self).next_id);
        }
    }

    /// The first free id at or above `max(next_id, 2)`.
    fn next_available_id(&self) -> (r: Result<AccountId, AccountError>)
        ensures
            ({
                let base = if self.next_id >= FIRST_DYNAMIC_ACCOUNT_ID {
                    self.next_id
                } else {
                    FIRST_DYNAMIC_ACCOUNT_ID
                };
                match r {
                    Ok(id) => base <= id && !has_id(self.entries(), id) && forall|c: u32|
                        base <= c < id ==> has_id(self.entries(), c),
                    Err(e) => e == AccountError::IdExhausted && forall|c: u32|
                        base <= c ==> has_id(self.entries(), c),
                }
            }),
    {
        let base = if self.next_id >= FIRST_DYNAMIC_ACCOUNT_ID {
            self.next_id
        } else {
            FIRST_DYNAMIC_ACCOUNT_ID
        };
        let mut candidate = base;
        loop
            invariant
                base <= candidate,
                base == (if self.next_id >= FIRST_DYNAMIC_ACCOUNT_ID {
                    self.next_id
                } else {
                    FIRST_DYNAMIC_ACCOUNT_ID
                }),
                forall|c: u32| base <= c < candidate ==> has_id(self.entries(), c),
            decreases u32::MAX - candidate,
        {
            if self.get(candidate).is_none() {
                return Ok(candidate);
            }
            if candidate == u32::MAX {
                return Err(AccountError::IdExhausted);
            }
            candidate = candidate + 1;
        }
    }
}

} // verus!
