//! The account leasing registry: which accounts exist, which are held, and
//! who is waiting for one to come free.

use vstd::prelude::*;

verus! {

/// A named account in the roster. The name is its identity: case-sensitive
/// and non-empty, unique within a registry.
#[derive(Debug, Clone, PartialEq, Eq)]
pub struct Account {
    pub name: String,
}

/// The identity of someone who asks for, holds, or waits for an account.
/// Only equality matters to the registry; the surrounding program uses the
/// id to deliver messages.
#[derive(Debug, Clone, Copy, PartialEq, Eq, Structural)]
pub struct Requester {
    pub id: u64,
}

/// Why the registry refused an operation.
#[derive(Debug, Clone, Copy, PartialEq, Eq, Structural)]
pub enum RegistryError {
    /// The named account is not in the roster.
    UnknownAccount,
    /// Acquire was asked for an account that is already held.
    AlreadyHeld,
    /// Release was asked for an account that is not held.
    NotHeld,
}

/// What a notified requester is told.
#[derive(Debug)]
pub enum NotificationEvent {
    /// The named account has just been released.
    AccountFreed(Account),
    /// These accounts are currently free.
    AccountsAvailable(Vec<Account>),
}

/// A one-way message the registry asks its caller to deliver. Delivery is
/// best-effort and happens outside the registry: a failed send never rolls
/// back the state change that produced the message.
#[derive(Debug)]
pub struct Notification {
    pub requester: Requester,
    pub event: NotificationEvent,
}

/// The outcome of a request for access.
#[derive(Debug)]
pub enum WaitOutcome {
    /// Every account was held; the requester now stands at the back of the
    /// waiting list.
    Enqueued,
    /// At least one account was free; these are the free accounts, in
    /// roster order. Nothing was mutated.
    Available(Vec<Account>),
}

/// The names of a sequence of accounts, in order.
pub open spec fn names_of(accounts: Seq<Account>) -> Seq<Seq<char>> {
    accounts.map(|i: int, a: Account| a.name@)
}

/// The names whose flag equals `want`, in order: with `want == true` the
/// held accounts, with `want == false` the free ones.
pub open spec fn selected(names: Seq<Seq<char>>, flags: Seq<bool>, want: bool) -> Seq<Seq<char>>
    decreases names.len(),
{
    if names.len() == 0 {
        Seq::empty()
    } else if flags[names.len() - 1] == want {
        selected(names.drop_last(), flags.drop_last(), want).push(names.last())
    } else {
        selected(names.drop_last(), flags.drop_last(), want)
    }
}

/// A name stands in `selected(names, flags, want)` exactly when it stands at
/// some roster position whose flag equals `want`.
pub proof fn lemma_selected_contains(
    names: Seq<Seq<char>>,
    flags: Seq<bool>,
    want: bool,
    n: Seq<char>,
)
    requires
        flags.len() == names.len(),
    ensures
        selected(names, flags, want).contains(n) <==>
            exists|i: int| 0 <= i < names.len() && names[i] == n && flags[i] == want,
    decreases names.len(),
{
    broadcast use vstd::seq_lib::lemma_seq_contains_after_push;

    if names.len() == 0 {
    } else {
        let m = names.len() - 1;
        lemma_selected_contains(names.drop_last(), flags.drop_last(), want, n);
        assert(forall|i: int| 0 <= i < m ==>
            names.drop_last()[i] == names[i] && flags.drop_last()[i] == flags[i]);
        if exists|i: int| 0 <= i < names.len() && names[i] == n && flags[i] == want {
            let i = choose|i: int| 0 <= i < names.len() && names[i] == n && flags[i] == want;
            if i < m {
                assert(names.drop_last()[i] == n && flags.drop_last()[i] == want);
            }
        }
    }
}

/// Extending the examined prefix by one position appends that position's
/// name exactly when its flag equals `want`.
proof fn lemma_selected_extend(names: Seq<Seq<char>>, flags: Seq<bool>, want: bool, i: int)
    requires
        flags.len() == names.len(),
        0 <= i < names.len(),
    ensures
        selected(names.subrange(0, i + 1), flags.subrange(0, i + 1), want) ==
            if flags[i] == want {
                selected(names.subrange(0, i), flags.subrange(0, i), want).push(names[i])
            } else {
                selected(names.subrange(0, i), flags.subrange(0, i), want)
            },
{
    assert(names.subrange(0, i + 1).drop_last() =~= names.subrange(0, i));
    assert(flags.subrange(0, i + 1).drop_last() =~= flags.subrange(0, i));
    assert(names.subrange(0, i + 1).last() == names[i]);
    assert(flags.subrange(0, i + 1)[i] == flags[i]);
}

/// A valid roster: every name non-empty, no two entries with the same name.
pub open spec fn roster_wf(names: Seq<Seq<char>>) -> bool {
    &&& forall|i: int| 0 <= i < names.len() ==> names[i].len() > 0
    &&& forall|i: int, j: int| 0 <= i < j < names.len() ==> names[i] != names[j]
}

/// The registry: the fixed roster, one held-flag per roster entry, and the
/// FIFO waiting list. All mutation goes through its methods; callers that
/// share it across tasks must serialize the calls under one exclusive
/// boundary of their own.
pub struct Registry {
    all: Vec<Account>,
    held: Vec<bool>,
    waiting: Vec<Requester>,
}

impl Registry {
    /// The roster, as a sequence of names in load order.
    pub closed spec fn names(self) -> Seq<Seq<char>> {
        names_of(self.all@)
    }

    /// One flag per roster entry: true where the account is held.
    pub closed spec fn flags(self) -> Seq<bool> {
        self.held@
    }

    /// The waiting list, oldest first.
    pub closed spec fn queue(self) -> Seq<Requester> {
        self.waiting@
    }

    /// Internal consistency: one flag per account, and a valid roster.
    pub open spec fn wf(self) -> bool {
        &&& self.flags().len() == self.names().len()
        &&& roster_wf(self.names())
    }

    /// The name is in the roster.
    pub open spec fn is_known(self, name: Seq<char>) -> bool {
        exists|i: int| 0 <= i < self.names().len() && self.names()[i] == name
    }

    /// The name is in the roster and its account is held.
    pub open spec fn is_held(self, name: Seq<char>) -> bool {
        exists|i: int|
            0 <= i < self.names().len() && self.names()[i] == name && self.flags()[i]
    }

    /// No account is free.
    pub open spec fn all_held(self) -> bool {
        forall|i: int| 0 <= i < self.flags().len() ==> self.flags()[i]
    }

    /// The held accounts' names, in roster order.
    pub open spec fn held_names(self) -> Seq<Seq<char>> {
        selected(self.names(), self.flags(), true)
    }

    /// The free accounts' names, in roster order.
    pub open spec fn free_names(self) -> Seq<Seq<char>> {
        selected(self.names(), self.flags(), false)
    }

    /// Every roster name, as a set.
    pub open spec fn all_set(self) -> Set<Seq<char>> {
        self.names().to_set()
    }

    /// The held accounts' names, as a set.
    pub open spec fn held_set(self) -> Set<Seq<char>> {
        Set::new(|n: Seq<char>| self.is_held(n))
    }

    /// Builds a registry over the given roster, every account free and
    /// nobody waiting. Returns `None` exactly when the roster is invalid:
    /// an empty name, or two entries with the same name.
    pub fn new(roster: Vec<Account>) -> (r: Option<Registry>)
        ensures
            match r {
                Some(reg) => {
                    &&& reg.wf()
                    &&& reg.names() == names_of(roster@)
                    &&& forall|i: int| 0 <= i < reg.flags().len() ==> !reg.flags()[i]
                    &&& reg.queue() == Seq::<Requester>::empty()
                },
                None => !roster_wf(names_of(roster@)),
            },
    {
        let n = roster.len();
        let mut i: usize = 0;
        while i < n
            invariant
                i <= n,
                n == roster@.len(),
                forall|p: int| 0 <= p < i ==> names_of(roster@)[p].len() > 0,
                forall|p: int, q: int| 0 <= p < q < roster@.len() && p < i ==>
                    names_of(roster@)[p] != names_of(roster@)[q],
            decreases n - i,
        {
            if roster[i].name.as_str().is_empty() {
                proof {
                    assert(names_of(roster@)[i as int] == roster@[i as int].name@);
                }
                return None;
            }
            let mut j: usize = i + 1;
            while j < n
                invariant
                    i < j <= n,
                    n == roster@.len(),
                    forall|q: int| i < q < j ==>
                        names_of(roster@)[i as int] != names_of(roster@)[q],
                decreases n - j,
            {
                if roster[i].name == roster[j].name {
                    proof {
                        assert(names_of(roster@)[i as int] == roster@[i as int].name@);
                        assert(names_of(roster@)[j as int] == roster@[j as int].name@);
                        assert(!(forall|p: int, q: int|
                            0 <= p < q < names_of(roster@).len() ==>
                                names_of(roster@)[p] != names_of(roster@)[q])) by {
                            assert(names_of(roster@)[i as int] == names_of(roster@)[j as int]);
                        }
                    }
                    return None;
                }
                j = j + 1;
            }
            i = i + 1;
        }
        let mut held: Vec<bool> = Vec::new();
        let mut k: usize = 0;
        while k < n
            invariant
                k <= n,
                held@.len() == k,
                forall|p: int| 0 <= p < k ==> !held@[p],
            decreases n - k,
        {
            held.push(false);
            k = k + 1;
        }
        Some(Registry { all: roster, held, waiting: Vec::new() })
    }

    /// Leases the named account to the caller. Fails with `UnknownAccount`
    /// when the name is not in the roster, with `AlreadyHeld` when the
    /// account is already leased; either failure leaves the state unchanged.
    /// On success exactly the named account is added to the held set. The
    /// waiting list is never touched, and the registry does not record which
    /// requester holds the account.
    pub fn acquire(&mut self, name: &String, _holder: Requester) -> (r: Result<(), RegistryError>)
        requires
            old(self).wf(),
        ensures
            final(self).wf(),
            final(self).names() == old(self).names(),
            final(self).queue() == old(self).queue(),
            final(self).flags().len() == old(self).flags().len(),
            match r {
                Ok(()) => {
                    &&& old(self).is_known(name@)
                    &&& !old(self).is_held(name@)
                    &&& final(self).is_held(name@)
                    &&& forall|i: int| 0 <= i < final(self).flags().len() ==>
                        final(self).flags()[i] ==
                            (old(self).flags()[i] || old(self).names()[i] == name@)
                },
                Err(RegistryError::UnknownAccount) => {
                    &&& !old(self).is_known(name@)
                    &&& final(self).flags() == old(self).flags()
                },
                Err(RegistryError::AlreadyHeld) => {
                    &&& old(self).is_known(name@)
                    &&& old(self).is_held(name@)
                    &&& final(self).flags() == old(self).flags()
                },
                Err(RegistryError::NotHeld) => false,
            },
    {
        match self.find_index(name) {
            None => Err(RegistryError::UnknownAccount),
            Some(i) => {
                if self.held[i] {
                    proof {
                        assert(self.is_held(name@)) by {
                            assert(self.names()[i as int] == name@ && self.flags()[i as int]);
                        }
                    }
                    Err(RegistryError::AlreadyHeld)
                } else {
                    proof {
                        assert(forall|j: int|
                            0 <= j < self.names().len() && j != i ==>
                                self.names()[j] != name@);
                    }
                    self.held.set(i, true);
                    proof {
                        assert(self.is_held(name@)) by {
                            assert(self.names()[i as int] == name@
                                && self.flags()[i as int]);
                        }
                        assert(forall|j: int| 0 <= j < self.flags().len() ==>
                            self.flags()[j] ==
                                (old(self).flags()[j] || old(self).names()[j] == name@));
                    }
                    Ok(())
                }
            },
        }
    }

    /// Gives the named account back. Fails with `UnknownAccount` when the
    /// name is not in the roster, with `NotHeld` when the account is not
    /// currently leased; either failure leaves the state unchanged. On
    /// success exactly the named account leaves the held set, and if anyone
    /// is waiting the oldest waiter is popped and handed back as a
    /// notification that the account came free, for the caller to deliver.
    /// Only one waiter is served per release.
    pub fn release(&mut self, name: &String) -> (r: Result<Option<Notification>, RegistryError>)
        requires
            old(self).wf(),
        ensures
            final(self).wf(),
            final(self).names() == old(self).names(),
            final(self).flags().len() == old(self).flags().len(),
            match r {
                Ok(n) => {
                    &&& old(self).is_known(name@)
                    &&& old(self).is_held(name@)
                    &&& !final(self).is_held(name@)
                    &&& forall|i: int| 0 <= i < final(self).flags().len() ==>
                        final(self).flags()[i] ==
                            (old(self).flags()[i] && old(self).names()[i] != name@)
                    &&& if old(self).queue().len() == 0 {
                        n is None && final(self).queue() == old(self).queue()
                    } else {
                        &&& n matches Some(msg)
                        &&& msg.requester == old(self).queue()[0]
                        &&& msg.event matches NotificationEvent::AccountFreed(a)
                            && a.name@ == name@
                        &&& final(self).queue() == old(self).queue().drop_first()
                    }
                },
                Err(RegistryError::UnknownAccount) => {
                    &&& !old(self).is_known(name@)
                    &&& final(self).flags() == old(self).flags()
                    &&& final(self).queue() == old(self).queue()
                },
                Err(RegistryError::NotHeld) => {
                    &&& old(self).is_known(name@)
                    &&& !old(self).is_held(name@)
                    &&& final(self).flags() == old(self).flags()
                    &&& final(self).queue() == old(self).queue()
                },
                Err(RegistryError::AlreadyHeld) => false,
            },
    {
        match self.find_index(name) {
            None => Err(RegistryError::UnknownAccount),
            Some(i) => {
                if !self.held[i] {
                    proof {
                        assert(forall|j: int|
                            0 <= j < self.names().len() && j != i ==>
                                self.names()[j] != name@);
                    }
                    Err(RegistryError::NotHeld)
                } else {
                    proof {
                        assert(self.is_held(name@)) by {
                            assert(self.names()[i as int] == name@
                                && self.flags()[i as int]);
                        }
                        assert(forall|j: int|
                            0 <= j < self.names().len() && j != i ==>
                                self.names()[j] != name@);
                    }
                    self.held.set(i, false);
                    proof {
                        assert(forall|j: int| 0 <= j < self.flags().len() ==>
                            self.flags()[j] ==
                                (old(self).flags()[j] && old(self).names()[j] != name@));
                        assert(!self.is_held(name@));
                    }
                    if self.waiting.len() > 0 {
                        let front = self.waiting.remove(0);
                        proof {
                            assert(self.queue() =~= old(self).queue().drop_first());
                        }
                        Ok(Some(Notification {
                            requester: front,
                            event: NotificationEvent::AccountFreed(Account {
                                name: name.clone(),
                            }),
                        }))
                    } else {
                        Ok(None)
                    }
                }
            },
        }
    }

    /// Asks for access. When every account is held, the requester joins the
    /// back of the waiting list and is told so; a later release will pop the
    /// list. Otherwise nothing is mutated and the currently free accounts
    /// come back, in roster order, for the requester to acquire explicitly.
    pub fn request_access(&mut self, requester: Requester) -> (r: WaitOutcome)
        requires
            old(self).wf(),
        ensures
            final(self).wf(),
            final(self).names() == old(self).names(),
            final(self).flags() == old(self).flags(),
            if old(self).all_held() {
                &&& r is Enqueued
                &&& final(self).queue() == old(self).queue().push(requester)
            } else {
                &&& final(self).queue() == old(self).queue()
                &&& (r matches WaitOutcome::Available(free)
                    && names_of(free@) == old(self).free_names())
            },
    {
        let free = self.accounts_with(false);
        if free.len() == 0 {
            proof {
                assert forall|i: int| 0 <= i < self.flags().len()
                    implies self.flags()[i] by {
                    if !self.flags()[i] {
                        lemma_selected_contains(
                            self.names(),
                            self.flags(),
                            false,
                            self.names()[i],
                        );
                        assert(self.free_names().contains(self.names()[i]));
                    }
                }
            }
            self.waiting.push(requester);
            WaitOutcome::Enqueued
        } else {
            proof {
                let n0 = self.free_names()[0];
                assert(self.free_names().contains(n0));
                lemma_selected_contains(self.names(), self.flags(), false, n0);
                assert(!self.all_held());
            }
            WaitOutcome::Available(free)
        }
    }

    /// A consistent snapshot: the held accounts and the free accounts, each
    /// in roster order. Together they cover the roster, and no account is in
    /// both.
    pub fn status(&self) -> (r: (Vec<Account>, Vec<Account>))
        requires
            self.wf(),
        ensures
            names_of(r.0@) == self.held_names(),
            names_of(r.1@) == self.free_names(),
    {
        let online = self.accounts_with(true);
        let offline = self.accounts_with(false);
        (online, offline)
    }

    /// A copy of the waiting list, oldest first.
    pub fn waiters(&self) -> (r: Vec<Requester>)
        ensures
            r@ == self.queue(),
    {
        let n = self.waiting.len();
        let mut r: Vec<Requester> = Vec::new();
        let mut i: usize = 0;
        while i < n
            invariant
                i <= n,
                n == self.waiting@.len(),
                r@ == self.waiting@.subrange(0, i as int),
            decreases n - i,
        {
            r.push(self.waiting[i]);
            proof {
                assert(r@ =~= self.waiting@.subrange(0, i as int + 1));
            }
            i = i + 1;
        }
        proof {
            assert(self.waiting@.subrange(0, n as int) =~= self.waiting@);
        }
        r
    }

    /// The accounts whose held-flag equals `want`, in roster order, as
    /// fresh values.
    fn accounts_with(&self, want: bool) -> (r: Vec<Account>)
        requires
            self.wf(),
        ensures
            names_of(r@) == selected(self.names(), self.flags(), want),
    {
        let n = self.all.len();
        let mut r: Vec<Account> = Vec::new();
        let mut i: usize = 0;
        while i < n
            invariant
                i <= n,
                n == self.all@.len(),
                self.wf(),
                names_of(r@) == selected(
                    self.names().subrange(0, i as int),
                    self.flags().subrange(0, i as int),
                    want,
                ),
            decreases n - i,
        {
            if self.held[i] == want {
                let acc = Account { name: self.all[i].name.clone() };
                let ghost prev = r@;
                r.push(acc);
                proof {
                    assert(names_of(r@) =~= names_of(prev).push(self.names()[i as int]));
                }
            }
            proof {
                lemma_selected_extend(self.names(), self.flags(), want, i as int);
            }
            i = i + 1;
        }
        proof {
            assert(self.names().subrange(0, n as int) =~= self.names());
            assert(self.flags().subrange(0, n as int) =~= self.flags());
        }
        r
    }

    /// The index of the named account in the roster, if any.
    fn find_index(&self, name: &String) -> (r: Option<usize>)
        ensures
            match r {
                Some(i) => i < self.names().len() && self.names()[i as int] == name@,
                None => !self.is_known(name@),
            },
    {
        let n = self.all.len();
        let mut i: usize = 0;
        while i < n
            invariant
                i <= n,
                n == self.all@.len(),
                forall|j: int| 0 <= j < i ==> self.names()[j] != name@,
            decreases n - i,
        {
            if self.all[i].name == *name {
                return Some(i);
            }
            i = i + 1;
        }
        None
    }
}

} // verus!
