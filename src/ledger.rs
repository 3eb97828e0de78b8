//! A reservable ledger: each account has a free balance, and amounts can be
//! held in reservations named by a byte string, released, or moved to the free
//! balance of another account.
use std::collections::HashMap;
use vstd::prelude::*;

use crate::seqs::{last_index, lemma_last_index, lemma_last_index_at, lemma_last_index_update};
use crate::types::{AccountId, Balance, Error};

verus! {

broadcast use vstd::std_specs::hash::group_hash_axioms;

/// An amount that `account` holds under `name`.
#[derive(Debug)]
pub struct Reservation {
    pub name: Vec<u8>,
    pub account: AccountId,
    pub amount: Balance,
}

pub struct ReservationView {
    pub name: Seq<u8>,
    pub account: AccountId,
    pub amount: Balance,
}

impl View for Reservation {
    type V = ReservationView;

    open spec fn view(&self) -> ReservationView {
        ReservationView { name: self.name@, account: self.account, amount: self.amount }
    }
}

#[derive(Debug)]
pub struct Ledger {
    pub free: HashMap<AccountId, Balance>,
    pub reserves: Vec<Reservation>,
}

pub struct LedgerView {
    pub free: Map<AccountId, Balance>,
    pub reserves: Seq<ReservationView>,
}

impl View for Ledger {
    type V = LedgerView;

    open spec fn view(&self) -> LedgerView {
        LedgerView {
            free: self.free@,
            reserves: self.reserves@.map_values(|r: Reservation| r@),
        }
    }
}

/// Where the reservation of `account` under `name` is kept, or -1.
pub open spec fn reserve_index(rs: Seq<ReservationView>, name: Seq<u8>, account: AccountId) -> int {
    last_index(rs, reservation_of(name, account))
}

/// Whether a reservation is the one of `account` under `name`.
pub open spec fn reservation_of(name: Seq<u8>, account: AccountId) -> spec_fn(ReservationView) -> bool {
    |r: ReservationView| r.name == name && r.account == account
}

/// The sum of every amount that `account` holds, whatever the name.
pub open spec fn total_reserved(rs: Seq<ReservationView>, account: AccountId) -> nat
    decreases rs.len(),
{
    if rs.len() == 0 {
        0
    } else {
        total_reserved(rs.drop_last(), account) + if rs.last().account == account {
            rs.last().amount as nat
        } else {
            0
        }
    }
}

/// `a + b`, or the largest balance where the sum does not fit.
pub open spec fn saturating_add(a: Balance, b: Balance) -> Balance {
    if a + b > u64::MAX {
        u64::MAX
    } else {
        (a + b) as Balance
    }
}

impl LedgerView {
    pub open spec fn free_of(self, account: AccountId) -> Balance {
        if self.free.contains_key(account) {
            self.free[account]
        } else {
            0
        }
    }

    pub open spec fn reserved_of(self, name: Seq<u8>, account: AccountId) -> Balance {
        let i = reserve_index(self.reserves, name, account);
        if i >= 0 {
            self.reserves[i].amount
        } else {
            0
        }
    }

    /// Whether `amount` can be moved from the free balance of `account` into
    /// its reservation under `name`.
    pub open spec fn can_reserve(self, name: Seq<u8>, account: AccountId, amount: Balance) -> bool {
        self.free_of(account) >= amount && self.reserved_of(name, account) + amount <= u64::MAX
    }

    /// The reservations with the one of `account` under `name` set to `amount`.
    pub open spec fn with_reserved(self, name: Seq<u8>, account: AccountId, amount: Balance) -> Seq<
        ReservationView,
    > {
        let i = reserve_index(self.reserves, name, account);
        let r = ReservationView { name, account, amount };
        if i >= 0 {
            self.reserves.update(i, r)
        } else {
            self.reserves.push(r)
        }
    }

    /// The ledger after `amount` moved from free to reserved under `name`.
    pub open spec fn reserve(self, name: Seq<u8>, account: AccountId, amount: Balance) -> LedgerView {
        LedgerView {
            free: self.free.insert(account, (self.free_of(account) - amount) as Balance),
            reserves: self.with_reserved(
                name,
                account,
                (self.reserved_of(name, account) + amount) as Balance,
            ),
        }
    }

    /// The ledger after up to `amount` of what `from` holds under `name` moved
    /// to the free balance of `to` (which may be `from` itself).
    pub open spec fn repatriate(
        self,
        name: Seq<u8>,
        from: AccountId,
        to: AccountId,
        amount: Balance,
    ) -> LedgerView {
        let i = reserve_index(self.reserves, name, from);
        let held = self.reserved_of(name, from);
        let moved: Balance = if amount <= held {
            amount
        } else {
            held
        };
        if i < 0 {
            self
        } else {
            LedgerView {
                free: self.free.insert(to, saturating_add(self.free_of(to), moved)),
                reserves: self.reserves.update(
                    i,
                    ReservationView { name, account: from, amount: (held - moved) as Balance },
                ),
            }
        }
    }

    /// The ledger after up to `amount` held under `name` went back to the
    /// free balance of `account`.
    pub open spec fn unreserve(self, name: Seq<u8>, account: AccountId, amount: Balance) -> LedgerView {
        self.repatriate(name, account, account, amount)
    }
}

/// Setting one reservation sets it and leaves every other as it was.
pub proof fn lemma_with_reserved(l: LedgerView, name: Seq<u8>, account: AccountId, amount: Balance)
    ensures
        forall|n: Seq<u8>, a: AccountId| #[trigger]
            (LedgerView { reserves: l.with_reserved(name, account, amount), ..l }).reserved_of(n, a)
                == if n == name && a == account {
                amount
            } else {
                l.reserved_of(n, a)
            },
{
    let rs = l.reserves;
    let i = reserve_index(rs, name, account);
    let e = ReservationView { name, account, amount };
    lemma_last_index(rs, reservation_of(name, account));
    assert forall|n: Seq<u8>, a: AccountId| #[trigger]
        (LedgerView { reserves: l.with_reserved(name, account, amount), ..l }).reserved_of(n, a)
            == if n == name && a == account {
            amount
        } else {
            l.reserved_of(n, a)
        } by {
        let t = l.with_reserved(name, account, amount);
        let p = reservation_of(n, a);
        lemma_last_index(rs, p);
        let k = last_index(rs, p);
        if i >= 0 {
            lemma_last_index_update(rs, p, i, e);
            assert(last_index(t, p) == k);
            if k >= 0 && k != i {
                assert(t[k] == rs[k]);
            }
        } else {
            assert(t.drop_last() =~= rs);
            assert(last_index(t, p) == if p(e) {
                t.len() - 1
            } else {
                k
            });
            if k >= 0 {
                assert(t[k] == rs[k]);
            }
        }
    }
}

/// What reserving does to each balance.
pub proof fn lemma_reserve(l: LedgerView, name: Seq<u8>, account: AccountId, amount: Balance)
    requires
        l.can_reserve(name, account, amount),
    ensures
        forall|n: Seq<u8>, a: AccountId| #[trigger]
            l.reserve(name, account, amount).reserved_of(n, a) == if n == name && a == account {
                l.reserved_of(n, a) + amount
            } else {
                l.reserved_of(n, a) as int
            },
        forall|a: AccountId| #[trigger]
            l.reserve(name, account, amount).free_of(a) == if a == account {
                l.free_of(a) - amount
            } else {
                l.free_of(a) as int
            },
{
    lemma_with_reserved(l, name, account, (l.reserved_of(name, account) + amount) as Balance);
    let t = l.reserve(name, account, amount);
    assert forall|n: Seq<u8>, a: AccountId| #[trigger] t.reserved_of(n, a) == if n == name && a
        == account {
        l.reserved_of(n, a) + amount
    } else {
        l.reserved_of(n, a) as int
    } by {
        assert(t.reserved_of(n, a) == (LedgerView {
            reserves: l.with_reserved(name, account, (l.reserved_of(name, account) + amount) as Balance),
            ..l
        }).reserved_of(n, a));
    }
}

/// What moving a held amount does to each balance: the reservation of
/// `from` under `name` loses what moved and the free balance of `to` gains
/// it (saturating), when anything is held there.
pub proof fn lemma_repatriate(l: LedgerView, name: Seq<u8>, from: AccountId, to: AccountId, amount: Balance)
    ensures
        ({
            let held = l.reserved_of(name, from);
            let moved: Balance = if amount <= held {
                amount
            } else {
                held
            };
            let t = l.repatriate(name, from, to, amount);
            &&& forall|n: Seq<u8>, a: AccountId| #[trigger]
                t.reserved_of(n, a) == if n == name && a == from {
                    held - moved
                } else {
                    l.reserved_of(n, a) as int
                }
            &&& forall|a: AccountId| #[trigger]
                t.free_of(a) == if a == to {
                    saturating_add(l.free_of(a), moved) as int
                } else {
                    l.free_of(a) as int
                }
        }),
{
    let i = reserve_index(l.reserves, name, from);
    lemma_last_index(l.reserves, reservation_of(name, from));
    if i >= 0 {
        let held = l.reserved_of(name, from);
        let moved: Balance = if amount <= held {
            amount
        } else {
            held
        };
        lemma_with_reserved(l, name, from, (held - moved) as Balance);
        let t = l.repatriate(name, from, to, amount);
        assert(t.reserves == l.with_reserved(name, from, (held - moved) as Balance));
        assert forall|n: Seq<u8>, a: AccountId| #[trigger] t.reserved_of(n, a) == if n == name && a
            == from {
            held - moved
        } else {
            l.reserved_of(n, a) as int
        } by {
            assert(t.reserved_of(n, a) == (LedgerView {
                reserves: l.with_reserved(name, from, (held - moved) as Balance),
                ..l
            }).reserved_of(n, a));
        }
    }
}

/// Replacing one reservation changes an account's total by the difference
/// of what the two hold for it.
pub proof fn lemma_total_reserved_update(rs: Seq<ReservationView>, i: int, e: ReservationView, a: AccountId)
    requires
        0 <= i < rs.len(),
    ensures
        total_reserved(rs.update(i, e), a) + (if rs[i].account == a {
            rs[i].amount as int
        } else {
            0
        }) == total_reserved(rs, a) + (if e.account == a {
            e.amount as int
        } else {
            0
        }),
    decreases rs.len(),
{
    let t = rs.update(i, e);
    if i == rs.len() - 1 {
        assert(t.drop_last() =~= rs.drop_last());
    } else {
        lemma_total_reserved_update(rs.drop_last(), i, e, a);
        assert(t.drop_last() =~= rs.drop_last().update(i, e));
    }
}

/// Reserving adds the amount to the reserving account's total, and to no
/// other account's.
pub proof fn lemma_reserve_total(l: LedgerView, name: Seq<u8>, account: AccountId, amount: Balance)
    requires
        l.can_reserve(name, account, amount),
    ensures
        forall|a: AccountId| #[trigger]
            total_reserved(l.reserve(name, account, amount).reserves, a) == total_reserved(
                l.reserves,
                a,
            ) + if a == account {
                amount as int
            } else {
                0
            },
{
    let i = reserve_index(l.reserves, name, account);
    lemma_last_index(l.reserves, reservation_of(name, account));
    let e = ReservationView {
        name,
        account,
        amount: (l.reserved_of(name, account) + amount) as Balance,
    };
    assert forall|a: AccountId| #[trigger]
        total_reserved(l.reserve(name, account, amount).reserves, a) == total_reserved(
            l.reserves,
            a,
        ) + if a == account {
            amount as int
        } else {
            0
        } by {
        if i >= 0 {
            lemma_total_reserved_update(l.reserves, i, e, a);
        } else {
            assert(l.reserves.push(e).drop_last() =~= l.reserves);
        }
    }
}

/// Moving a held amount away takes what moved off the giving account's
/// total, and changes no other account's.
pub proof fn lemma_repatriate_total(l: LedgerView, name: Seq<u8>, from: AccountId, to: AccountId, amount: Balance)
    ensures
        forall|a: AccountId| #[trigger]
            total_reserved(l.repatriate(name, from, to, amount).reserves, a) == total_reserved(
                l.reserves,
                a,
            ) - if a == from {
                if amount <= l.reserved_of(name, from) {
                    amount as int
                } else {
                    l.reserved_of(name, from) as int
                }
            } else {
                0
            },
{
    let i = reserve_index(l.reserves, name, from);
    lemma_last_index(l.reserves, reservation_of(name, from));
    if i >= 0 {
        let held = l.reserved_of(name, from);
        let moved: Balance = if amount <= held {
            amount
        } else {
            held
        };
        let e = ReservationView { name, account: from, amount: (held - moved) as Balance };
        assert forall|a: AccountId| #[trigger]
            total_reserved(l.repatriate(name, from, to, amount).reserves, a) == total_reserved(
                l.reserves,
                a,
            ) - if a == from {
                moved as int
            } else {
                0
            } by {
            lemma_total_reserved_update(l.reserves, i, e, a);
        }
    }
}

/// Whether two byte strings are equal.
pub fn bytes_equal(a: &Vec<u8>, b: &Vec<u8>) -> (r: bool)
    ensures
        r == (a@ == b@),
{
    if a.len() != b.len() {
        return false;
    }
    let mut i: usize = 0;
    while i < a.len()
        invariant
            a@.len() == b@.len(),
            i <= a@.len(),
            forall|j: int| 0 <= j < i ==> a@[j] == b@[j],
        decreases a@.len() - i,
    {
        if a[i] != b[i] {
            return false;
        }
        i = i + 1;
    }
    assert(a@ =~= b@);
    true
}

impl Ledger {
    pub fn new() -> (r: Ledger)
        ensures
            r@.free == Map::<AccountId, Balance>::empty(),
            r@.reserves == Seq::<ReservationView>::empty(),
    {
        let r = Ledger { free: HashMap::new(), reserves: Vec::new() };
        assert(r@.reserves =~= Seq::<ReservationView>::empty());
        r
    }

    pub fn free_balance(&self, account: AccountId) -> (r: Balance)
        ensures
            r == self@.free_of(account),
    {
        match self.free.get(&account) {
            Some(b) => *b,
            None => 0,
        }
    }

    /// Sets the free balance of `account`.
    pub fn set_free_balance(&mut self, account: AccountId, amount: Balance)
        ensures
            final(self)@ == (LedgerView { free: old(self)@.free.insert(account, amount), ..old(self)@ }),
    {
        self.free.insert(account, amount);
    }

    fn find(&self, name: &Vec<u8>, account: AccountId) -> (r: Option<usize>)
        ensures
            match r {
                Some(i) => i < self@.reserves.len() && i as int == reserve_index(
                    self@.reserves,
                    name@,
                    account,
                ),
                None => reserve_index(self@.reserves, name@, account) == -1,
            },
    {
        let ghost p = reservation_of(name@, account);
        let mut i: usize = self.reserves.len();
        while i > 0
            invariant
                i <= self@.reserves.len(),
                p == reservation_of(name@, account),
                forall|j: int| i <= j < self@.reserves.len() ==> !p(#[trigger] self@.reserves[j]),
            decreases i,
        {
            i = i - 1;
            if self.reserves[i].account == account && bytes_equal(&self.reserves[i].name, name) {
                proof {
                    assert(self@.reserves[i as int] == self.reserves@[i as int]@);
                    lemma_last_index_at(self@.reserves, p, i as int);
                }
                return Some(i);
            }
        }
        proof {
            lemma_last_index_at(self@.reserves, p, -1);
        }
        None
    }

    pub fn reserved_named(&self, name: &Vec<u8>, account: AccountId) -> (r: Balance)
        ensures
            r == self@.reserved_of(name@, account),
    {
        match self.find(name, account) {
            Some(i) => self.reserves[i].amount,
            None => 0,
        }
    }

    /// Everything that `account` holds in reserve.
    pub fn reserved_balance(&self, account: AccountId) -> (r: u128)
        ensures
            r == total_reserved(self@.reserves, account),
    {
        let mut total: u128 = 0;
        let mut i: usize = 0;
        while i < self.reserves.len()
            invariant
                i <= self@.reserves.len(),
                total == total_reserved(self@.reserves.take(i as int), account),
                total <= i * (u64::MAX as int),
            decreases self@.reserves.len() - i,
        {
            assert(self@.reserves.take(i as int + 1).drop_last() =~= self@.reserves.take(i as int));
            if self.reserves[i].account == account {
                assert(total + self@.reserves[i as int].amount <= (i + 1) * (u64::MAX as int))
                    by (nonlinear_arith)
                    requires
                        total <= i * (u64::MAX as int),
                        self@.reserves[i as int].amount <= u64::MAX,
                ;
                assert((i + 1) * (u64::MAX as int) <= u128::MAX) by (nonlinear_arith)
                    requires
                        i < usize::MAX,
                ;
                total = total + self.reserves[i].amount as u128;
            } else {
                assert(total <= (i + 1) * (u64::MAX as int)) by (nonlinear_arith)
                    requires
                        total <= i * (u64::MAX as int),
                ;
            }
            i = i + 1;
        }
        assert(self@.reserves.take(self@.reserves.len() as int) =~= self@.reserves);
        total
    }

    pub fn can_reserve(&self, name: &Vec<u8>, account: AccountId, amount: Balance) -> (r: bool)
        ensures
            r == self@.can_reserve(name@, account, amount),
    {
        let free = self.free_balance(account);
        let held = self.reserved_named(name, account);
        free >= amount && held <= u64::MAX - amount
    }

    fn set_reserved(&mut self, name: &Vec<u8>, account: AccountId, amount: Balance)
        ensures
            final(self)@ == (LedgerView {
                reserves: old(self)@.with_reserved(name@, account, amount),
                ..old(self)@
            }),
    {
        match self.find(name, account) {
            Some(i) => {
                self.reserves[i].amount = amount;
                proof {
                    lemma_last_index(old(self)@.reserves, reservation_of(name@, account));
                }
                assert(self@.reserves =~= old(self)@.with_reserved(name@, account, amount));
            },
            None => {
                self.reserves.push(Reservation { name: name.clone(), account, amount });
                assert(self@.reserves =~= old(self)@.with_reserved(name@, account, amount));
            },
        }
    }

    /// Moves `amount` from the free balance of `account` into its reservation
    /// under `name`; refused when the free balance is short or the reservation
    /// would overflow.
    pub fn reserve_named(&mut self, name: &Vec<u8>, account: AccountId, amount: Balance) -> (r:
        Result<(), Error>)
        ensures
            r is Ok <==> old(self)@.can_reserve(name@, account, amount),
            r is Ok ==> final(self)@ == old(self)@.reserve(name@, account, amount),
            r is Err ==> final(self)@ == old(self)@ && r == Err::<(), Error>(
                Error::InsufficientFunds,
            ),
    {
        if !self.can_reserve(name, account, amount) {
            return Err(Error::InsufficientFunds);
        }
        let free = self.free_balance(account);
        let held = self.reserved_named(name, account);
        self.free.insert(account, free - amount);
        self.set_reserved(name, account, held + amount);
        Ok(())
    }

    /// Moves up to `amount` of what `from` holds under `name` to the free
    /// balance of `to`.
    pub fn repatriate_reserved_named(
        &mut self,
        name: &Vec<u8>,
        from: AccountId,
        to: AccountId,
        amount: Balance,
    )
        ensures
            final(self)@ == old(self)@.repatriate(name@, from, to, amount),
    {
        match self.find(name, from) {
            None => {},
            Some(i) => {
                proof {
                    lemma_last_index(old(self)@.reserves, reservation_of(name@, from));
                }
                let held = self.reserves[i].amount;
                let moved = if amount <= held {
                    amount
                } else {
                    held
                };
                self.reserves[i].amount = held - moved;
                let to_free = self.free_balance(to);
                let credited = to_free.saturating_add(moved);
                self.free.insert(to, credited);
                assert(self@.reserves =~= old(self)@.repatriate(name@, from, to, amount).reserves);
            },
        }
    }

    /// Releases up to `amount` held under `name` back to the free balance of
    /// `account`.
    pub fn unreserve_named(&mut self, name: &Vec<u8>, account: AccountId, amount: Balance)
        ensures
            final(self)@ == old(self)@.unreserve(name@, account, amount),
    {
        self.repatriate_reserved_named(name, account, account, amount);
    }
}

} // verus!
