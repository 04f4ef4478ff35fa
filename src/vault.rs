use vstd::prelude::*;
use std::collections::HashMap;

use crate::error::{QuipayError, QuipayResult};
use crate::Address;

verus! {

broadcast use vstd::std_specs::hash::group_hash_axioms;

/// Version bookkeeping of the treasury.
#[derive(Clone, Copy, Debug, PartialEq, Eq, Structural)]
pub struct VersionInfo {
    pub major: u32,
    pub minor: u32,
    pub patch: u32,
    pub upgraded_at: u64,
}

/// Treasury ledger: per asset, the funds held and the funds promised to streams.
pub struct PayrollVault {
    admin: Option<Address>,
    version: Option<VersionInfo>,
    authorized_contract: Option<Address>,
    balances: HashMap<Address, i128>,
    liabilities: HashMap<Address, i128>,
}

/// The abstract state of a `PayrollVault`.
pub struct VaultView {
    pub admin: Option<Address>,
    pub version: Option<VersionInfo>,
    pub authorized_contract: Option<Address>,
    pub balances: Map<Address, i128>,
    pub liabilities: Map<Address, i128>,
}

/// Reads an amount that defaults to zero when the asset was never referenced.
pub open spec fn amount_of(m: Map<Address, i128>, token: Address) -> int {
    if m.contains_key(token) {
        m[token] as int
    } else {
        0
    }
}

/// Ties the result of an operation to its abstract outcome: on success the
/// new state is the outcome's, on failure the error is the outcome's and the
/// state is unchanged.
pub open spec fn applied<V>(r: QuipayResult<()>, outcome: Result<V, QuipayError>, before: V, after: V) -> bool {
    match outcome {
        Ok(v) => r is Ok && after == v,
        Err(e) => r == Err::<(), QuipayError>(e) && after == before,
    }
}

impl VaultView {
    pub open spec fn balance(self, token: Address) -> int {
        amount_of(self.balances, token)
    }

    pub open spec fn liability(self, token: Address) -> int {
        amount_of(self.liabilities, token)
    }

    /// `balance >= liability >= 0` for every asset.
    pub open spec fn solvent(self) -> bool {
        forall|t: Address| 0 <= #[trigger] self.liability(t) <= self.balance(t)
    }

    pub open spec fn with_balance(self, token: Address, v: int) -> VaultView {
        VaultView { balances: self.balances.insert(token, v as i128), ..self }
    }

    pub open spec fn with_liability(self, token: Address, v: int) -> VaultView {
        VaultView { liabilities: self.liabilities.insert(token, v as i128), ..self }
    }

    /// `balance >= liability + additional`, negative additions never admitted.
    pub open spec fn covers(self, token: Address, additional: int) -> bool {
        additional >= 0 && self.liability(token) + additional <= self.balance(token)
    }

    pub open spec fn deposit_outcome(self, token: Address, amount: int) -> Result<VaultView, QuipayError> {
        if amount <= 0 {
            Err(QuipayError::InvalidAmount)
        } else if self.balance(token) + amount > i128::MAX {
            Err(QuipayError::ArithmeticOverflow)
        } else {
            Ok(self.with_balance(token, self.balance(token) + amount))
        }
    }

    pub open spec fn withdraw_free_outcome(self, token: Address, amount: int) -> Result<VaultView, QuipayError> {
        if amount <= 0 {
            Err(QuipayError::InvalidAmount)
        } else if amount > self.balance(token) - self.liability(token) {
            Err(QuipayError::InsufficientBalance)
        } else {
            Ok(self.with_balance(token, self.balance(token) - amount))
        }
    }

    pub open spec fn allocate_outcome(self, token: Address, amount: int) -> Result<VaultView, QuipayError> {
        if amount <= 0 {
            Err(QuipayError::InvalidAmount)
        } else if !self.covers(token, amount) {
            Err(QuipayError::InsufficientBalance)
        } else {
            Ok(self.with_liability(token, self.liability(token) + amount))
        }
    }

    pub open spec fn release_outcome(self, token: Address, amount: int) -> Result<VaultView, QuipayError> {
        if amount <= 0 {
            Err(QuipayError::InvalidAmount)
        } else if amount > self.liability(token) {
            Err(QuipayError::InvalidAmount)
        } else {
            Ok(self.with_liability(token, self.liability(token) - amount))
        }
    }

    pub open spec fn payout_outcome(self, token: Address, amount: int) -> Result<VaultView, QuipayError> {
        if amount <= 0 {
            Err(QuipayError::InvalidAmount)
        } else if amount > self.balance(token) {
            Err(QuipayError::InsufficientBalance)
        } else if amount > self.liability(token) {
            Err(QuipayError::InvalidAmount)
        } else {
            Ok(
                self.with_liability(token, self.liability(token) - amount).with_balance(
                    token,
                    self.balance(token) - amount,
                ),
            )
        }
    }

    /// Admin gate in front of an outcome.
    pub open spec fn as_admin(
        self,
        caller: Address,
        outcome: Result<VaultView, QuipayError>,
    ) -> Result<VaultView, QuipayError> {
        match self.admin {
            None => Err(QuipayError::NotInitialized),
            Some(a) => if a != caller {
                Err(QuipayError::Unauthorized)
            } else {
                outcome
            },
        }
    }

    /// Gate of the designated liability manager in front of an outcome.
    pub open spec fn as_manager(
        self,
        caller: Address,
        outcome: Result<VaultView, QuipayError>,
    ) -> Result<VaultView, QuipayError> {
        match self.authorized_contract {
            None => Err(QuipayError::NotInitialized),
            Some(a) => if a != caller {
                Err(QuipayError::Unauthorized)
            } else {
                outcome
            },
        }
    }
}

/// Solvency: starting from a solvent ledger, every successful deposit,
/// free withdrawal, allocation, release or payout leaves it solvent.
pub proof fn lemma_solvency_preserved(v: VaultView, token: Address, amount: int)
    requires
        v.solvent(),
    ensures
        v.deposit_outcome(token, amount) is Ok ==> v.deposit_outcome(token, amount)->Ok_0.solvent(),
        v.withdraw_free_outcome(token, amount) is Ok ==> v.withdraw_free_outcome(
            token,
            amount,
        )->Ok_0.solvent(),
        v.allocate_outcome(token, amount) is Ok ==> v.allocate_outcome(token, amount)->Ok_0.solvent(),
        v.release_outcome(token, amount) is Ok ==> v.release_outcome(token, amount)->Ok_0.solvent(),
        v.payout_outcome(token, amount) is Ok ==> v.payout_outcome(token, amount)->Ok_0.solvent(),
{
    if let Ok(w) = v.deposit_outcome(token, amount) {
        assert forall|t: Address| 0 <= #[trigger] w.liability(t) <= w.balance(t) by {
            assert(v.liability(t) <= v.balance(t));
        }
    }
    if let Ok(w) = v.withdraw_free_outcome(token, amount) {
        assert forall|t: Address| 0 <= #[trigger] w.liability(t) <= w.balance(t) by {
            assert(v.liability(t) <= v.balance(t));
        }
    }
    if let Ok(w) = v.allocate_outcome(token, amount) {
        assert forall|t: Address| 0 <= #[trigger] w.liability(t) <= w.balance(t) by {
            assert(v.liability(t) <= v.balance(t));
        }
    }
    if let Ok(w) = v.release_outcome(token, amount) {
        assert forall|t: Address| 0 <= #[trigger] w.liability(t) <= w.balance(t) by {
            assert(v.liability(t) <= v.balance(t));
        }
    }
    if let Ok(w) = v.payout_outcome(token, amount) {
        assert forall|t: Address| 0 <= #[trigger] w.liability(t) <= w.balance(t) by {
            assert(v.liability(t) <= v.balance(t));
        }
    }
}

/// One ledger mutation, by asset and amount.
pub enum LedgerOp {
    Deposit(Address, i128),
    WithdrawFree(Address, i128),
    Allocate(Address, i128),
    Release(Address, i128),
    Payout(Address, i128),
}

/// The ledger after `op`: its outcome when accepted, the same ledger when refused.
pub open spec fn ledger_step(v: VaultView, op: LedgerOp) -> VaultView {
    let outcome = match op {
        LedgerOp::Deposit(t, a) => v.deposit_outcome(t, a as int),
        LedgerOp::WithdrawFree(t, a) => v.withdraw_free_outcome(t, a as int),
        LedgerOp::Allocate(t, a) => v.allocate_outcome(t, a as int),
        LedgerOp::Release(t, a) => v.release_outcome(t, a as int),
        LedgerOp::Payout(t, a) => v.payout_outcome(t, a as int),
    };
    match outcome {
        Ok(w) => w,
        Err(_) => v,
    }
}

/// The ledger after each of `ops` in turn.
pub open spec fn ledger_run(v: VaultView, ops: Seq<LedgerOp>) -> VaultView
    decreases ops.len(),
{
    if ops.len() == 0 {
        v
    } else {
        ledger_step(ledger_run(v, ops.drop_last()), ops.last())
    }
}

/// Solvency over any sequence: from a solvent ledger, every sequence of
/// deposits, free withdrawals, allocations, releases and payouts, accepted or
/// refused, leaves `balance >= liability >= 0` for every asset.
pub proof fn lemma_solvency_over_sequences(v: VaultView, ops: Seq<LedgerOp>)
    requires
        v.solvent(),
    ensures
        ledger_run(v, ops).solvent(),
    decreases ops.len(),
{
    if ops.len() > 0 {
        let before = ledger_run(v, ops.drop_last());
        lemma_solvency_over_sequences(v, ops.drop_last());
        match ops.last() {
            LedgerOp::Deposit(t, a) => lemma_solvency_preserved(before, t, a as int),
            LedgerOp::WithdrawFree(t, a) => lemma_solvency_preserved(before, t, a as int),
            LedgerOp::Allocate(t, a) => lemma_solvency_preserved(before, t, a as int),
            LedgerOp::Release(t, a) => lemma_solvency_preserved(before, t, a as int),
            LedgerOp::Payout(t, a) => lemma_solvency_preserved(before, t, a as int),
        }
    }
}

fn read_amount(m: &HashMap<Address, i128>, token: Address) -> (r: i128)
    ensures
        r == amount_of(m@, token),
{
    match m.get(&token) {
        Some(v) => *v,
        None => 0,
    }
}

impl View for PayrollVault {
    type V = VaultView;

    closed spec fn view(&self) -> VaultView {
        VaultView {
            admin: self.admin,
            version: self.version,
            authorized_contract: self.authorized_contract,
            balances: self.balances@,
            liabilities: self.liabilities@,
        }
    }
}

impl PayrollVault {
    /// The ledger invariant: solvent for every asset.
    pub open spec fn wf(&self) -> bool {
        self@.solvent()
    }

    /// An empty, uninitialized ledger.
    pub fn new() -> (r: PayrollVault)
        ensures
            r@.admin is None,
            r@.version is None,
            r@.authorized_contract is None,
            r@.balances == Map::<Address, i128>::empty(),
            r@.liabilities == Map::<Address, i128>::empty(),
            r.wf(),
    {
        PayrollVault {
            admin: None,
            version: None,
            authorized_contract: None,
            balances: HashMap::new(),
            liabilities: HashMap::new(),
        }
    }

    /// Sets the admin and the initial version 1.0.0, once.
    pub fn initialize(&mut self, admin: Address, now: u64) -> (r: QuipayResult<()>)
        ensures
            applied(
                r,
                if old(self)@.admin is Some {
                    Err(QuipayError::AlreadyInitialized)
                } else {
                    Ok(
                        (VaultView {
                            admin: Some(admin),
                            version: Some(VersionInfo { major: 1, minor: 0, patch: 0, upgraded_at: now }),
                            ..old(self)@
                        }),
                    )
                },
                old(self)@,
                final(self)@,
            ),
    {
        if self.admin.is_some() {
            return Err(QuipayError::AlreadyInitialized);
        }
        self.admin = Some(admin);
        self.version = Some(VersionInfo { major: 1, minor: 0, patch: 0, upgraded_at: now });
        Ok(())
    }

    /// Records a new version; the admin only.
    pub fn upgrade(&mut self, caller: Address, new_version: (u32, u32, u32), now: u64) -> (r: QuipayResult<()>)
        ensures
            applied(
                r,
                old(self)@.as_admin(
                    caller,
                    if old(self)@.version is None {
                        Err(QuipayError::VersionNotSet)
                    } else {
                        Ok(
                            (VaultView {
                                version: Some(
                                    VersionInfo {
                                        major: new_version.0,
                                        minor: new_version.1,
                                        patch: new_version.2,
                                        upgraded_at: now,
                                    },
                                ),
                                ..old(self)@
                            }),
                        )
                    },
                ),
                old(self)@,
                final(self)@,
            ),
    {
        let admin = self.get_admin()?;
        if admin != caller {
            return Err(QuipayError::Unauthorized);
        }
        let _current = self.get_version()?;
        let (major, minor, patch) = new_version;
        self.version = Some(VersionInfo { major, minor, patch, upgraded_at: now });
        Ok(())
    }

    pub fn get_version(&self) -> (r: QuipayResult<VersionInfo>)
        ensures
            r == (match self@.version {
                Some(v) => Ok(v),
                None => Err::<VersionInfo, QuipayError>(QuipayError::VersionNotSet),
            }),
    {
        match self.version {
            Some(v) => Ok(v),
            None => Err(QuipayError::VersionNotSet),
        }
    }

    pub fn get_admin(&self) -> (r: QuipayResult<Address>)
        ensures
            r == (match self@.admin {
                Some(a) => Ok(a),
                None => Err::<Address, QuipayError>(QuipayError::NotInitialized),
            }),
    {
        match self.admin {
            Some(a) => Ok(a),
            None => Err(QuipayError::NotInitialized),
        }
    }

    /// Hands admin rights to `new_admin`; the admin only.
    pub fn transfer_admin(&mut self, caller: Address, new_admin: Address) -> (r: QuipayResult<()>)
        ensures
            applied(
                r,
                old(self)@.as_admin(caller, Ok((VaultView { admin: Some(new_admin), ..old(self)@ }))),
                old(self)@,
                final(self)@,
            ),
    {
        let admin = self.get_admin()?;
        if admin != caller {
            return Err(QuipayError::Unauthorized);
        }
        self.admin = Some(new_admin);
        Ok(())
    }

    /// Credits `amount` of `token` to the treasury.
    pub fn deposit(&mut self, token: Address, amount: i128) -> (r: QuipayResult<()>)
        requires
            old(self).wf(),
        ensures
            applied(r, old(self)@.deposit_outcome(token, amount as int), old(self)@, final(self)@),
            final(self).wf(),
    {
        proof {
            lemma_solvency_preserved(self@, token, amount as int);
        }
        if amount <= 0 {
            return Err(QuipayError::InvalidAmount);
        }
        let balance = read_amount(&self.balances, token);
        let new_balance = match balance.checked_add(amount) {
            Some(b) => b,
            None => {
                return Err(QuipayError::ArithmeticOverflow);
            },
        };
        self.balances.insert(token, new_balance);
        Ok(())
    }

    /// Whether the treasury covers its liability plus `additional_liability`.
    pub fn check_solvency(&self, token: Address, additional_liability: i128) -> (r: bool)
        requires
            self.wf(),
        ensures
            r == self@.covers(token, additional_liability as int),
    {
        if additional_liability < 0 {
            return false;
        }
        let balance = read_amount(&self.balances, token);
        let liability = read_amount(&self.liabilities, token);
        proof {
            assert(0 <= self@.liability(token) <= self@.balance(token));
        }
        additional_liability <= balance - liability
    }

    /// Funds not promised to any stream: `balance - liability`.
    pub fn get_available_balance(&self, token: Address) -> (r: i128)
        requires
            self.wf(),
        ensures
            r == self@.balance(token) - self@.liability(token),
    {
        let balance = read_amount(&self.balances, token);
        let liability = read_amount(&self.liabilities, token);
        proof {
            assert(0 <= self@.liability(token) <= self@.balance(token));
        }
        balance - liability
    }

    /// Draws down uncommitted funds; the admin only.
    pub fn withdraw(&mut self, caller: Address, token: Address, amount: i128) -> (r: QuipayResult<()>)
        requires
            old(self).wf(),
        ensures
            applied(
                r,
                old(self)@.as_admin(caller, old(self)@.withdraw_free_outcome(token, amount as int)),
                old(self)@,
                final(self)@,
            ),
            final(self).wf(),
    {
        let admin = self.get_admin()?;
        if admin != caller {
            return Err(QuipayError::Unauthorized);
        }
        proof {
            lemma_solvency_preserved(self@, token, amount as int);
        }
        if amount <= 0 {
            return Err(QuipayError::InvalidAmount);
        }
        let available = self.get_available_balance(token);
        if amount > available {
            return Err(QuipayError::InsufficientBalance);
        }
        let balance = read_amount(&self.balances, token);
        self.balances.insert(token, balance - amount);
        Ok(())
    }

    /// Admits a new commitment of `amount` when the treasury covers it.
    pub(crate) fn allocate_liability(&mut self, token: Address, amount: i128) -> (r: QuipayResult<()>)
        requires
            old(self).wf(),
        ensures
            applied(r, old(self)@.allocate_outcome(token, amount as int), old(self)@, final(self)@),
            final(self).wf(),
    {
        proof {
            lemma_solvency_preserved(self@, token, amount as int);
        }
        if amount <= 0 {
            return Err(QuipayError::InvalidAmount);
        }
        if !self.check_solvency(token, amount) {
            return Err(QuipayError::InsufficientBalance);
        }
        let liability = read_amount(&self.liabilities, token);
        self.liabilities.insert(token, liability + amount);
        Ok(())
    }

    /// Gives back `amount` of promised funds.
    pub(crate) fn release_liability(&mut self, token: Address, amount: i128) -> (r: QuipayResult<()>)
        requires
            old(self).wf(),
        ensures
            applied(r, old(self)@.release_outcome(token, amount as int), old(self)@, final(self)@),
            final(self).wf(),
    {
        proof {
            lemma_solvency_preserved(self@, token, amount as int);
        }
        if amount <= 0 {
            return Err(QuipayError::InvalidAmount);
        }
        let liability = read_amount(&self.liabilities, token);
        if amount > liability {
            return Err(QuipayError::InvalidAmount);
        }
        self.liabilities.insert(token, liability - amount);
        Ok(())
    }

    /// Pays `amount` of promised funds out: both balance and liability drop.
    pub(crate) fn pay_liability(&mut self, token: Address, amount: i128) -> (r: QuipayResult<()>)
        requires
            old(self).wf(),
        ensures
            applied(r, old(self)@.payout_outcome(token, amount as int), old(self)@, final(self)@),
            final(self).wf(),
    {
        proof {
            lemma_solvency_preserved(self@, token, amount as int);
        }
        if amount <= 0 {
            return Err(QuipayError::InvalidAmount);
        }
        let balance = read_amount(&self.balances, token);
        let liability = read_amount(&self.liabilities, token);
        if amount > balance {
            return Err(QuipayError::InsufficientBalance);
        }
        if amount > liability {
            return Err(QuipayError::InvalidAmount);
        }
        self.liabilities.insert(token, liability - amount);
        self.balances.insert(token, balance - amount);
        Ok(())
    }
    /// Admin-authorized allocation of liability.
    pub fn allocate_funds(&mut self, caller: Address, token: Address, amount: i128) -> (r: QuipayResult<()>)
        requires
            old(self).wf(),
        ensures
            applied(
                r,
                old(self)@.as_admin(caller, old(self)@.allocate_outcome(token, amount as int)),
                old(self)@,
                final(self)@,
            ),
            final(self).wf(),
    {
        let admin = self.get_admin()?;
        if admin != caller {
            return Err(QuipayError::Unauthorized);
        }
        self.allocate_liability(token, amount)
    }

    /// Admin-authorized release of liability.
    pub fn release_funds(&mut self, caller: Address, token: Address, amount: i128) -> (r: QuipayResult<()>)
        requires
            old(self).wf(),
        ensures
            applied(
                r,
                old(self)@.as_admin(caller, old(self)@.release_outcome(token, amount as int)),
                old(self)@,
                final(self)@,
            ),
            final(self).wf(),
    {
        let admin = self.get_admin()?;
        if admin != caller {
            return Err(QuipayError::Unauthorized);
        }
        self.release_liability(token, amount)
    }

    /// Admin-authorized payout of promised funds to a recipient; the transfer
    /// itself is made by the host once this succeeds.
    pub fn payout(&mut self, caller: Address, token: Address, amount: i128) -> (r: QuipayResult<()>)
        requires
            old(self).wf(),
        ensures
            applied(
                r,
                old(self)@.as_admin(caller, old(self)@.payout_outcome(token, amount as int)),
                old(self)@,
                final(self)@,
            ),
            final(self).wf(),
    {
        let admin = self.get_admin()?;
        if admin != caller {
            return Err(QuipayError::Unauthorized);
        }
        self.pay_liability(token, amount)
    }

    /// Designates the account allowed to add and remove liability; the admin only.
    pub fn set_authorized_contract(&mut self, caller: Address, contract: Address) -> (r: QuipayResult<()>)
        ensures
            applied(
                r,
                old(self)@.as_admin(
                    caller,
                    Ok((VaultView { authorized_contract: Some(contract), ..old(self)@ })),
                ),
                old(self)@,
                final(self)@,
            ),
    {
        let admin = self.get_admin()?;
        if admin != caller {
            return Err(QuipayError::Unauthorized);
        }
        self.authorized_contract = Some(contract);
        Ok(())
    }

    pub fn get_authorized_contract(&self) -> (r: Option<Address>)
        ensures
            r == self@.authorized_contract,
    {
        self.authorized_contract
    }

    /// Liability added by the designated manager; refused unless solvent afterwards.
    pub fn add_liability(&mut self, caller: Address, token: Address, amount: i128) -> (r: QuipayResult<()>)
        requires
            old(self).wf(),
        ensures
            applied(
                r,
                old(self)@.as_manager(caller, old(self)@.allocate_outcome(token, amount as int)),
                old(self)@,
                final(self)@,
            ),
            final(self).wf(),
    {
        match self.authorized_contract {
            None => {
                return Err(QuipayError::NotInitialized);
            },
            Some(a) => {
                if a != caller {
                    return Err(QuipayError::Unauthorized);
                }
            },
        }
        self.allocate_liability(token, amount)
    }

    /// Liability removed by the designated manager.
    pub fn remove_liability(&mut self, caller: Address, token: Address, amount: i128) -> (r: QuipayResult<()>)
        requires
            old(self).wf(),
        ensures
            applied(
                r,
                old(self)@.as_manager(caller, old(self)@.release_outcome(token, amount as int)),
                old(self)@,
                final(self)@,
            ),
            final(self).wf(),
    {
        match self.authorized_contract {
            None => {
                return Err(QuipayError::NotInitialized);
            },
            Some(a) => {
                if a != caller {
                    return Err(QuipayError::Unauthorized);
                }
            },
        }
        self.release_liability(token, amount)
    }

    pub fn get_liability(&self, token: Address) -> (r: i128)
        ensures
            r == self@.liability(token),
    {
        read_amount(&self.liabilities, token)
    }

    pub fn get_treasury_balance(&self, token: Address) -> (r: i128)
        ensures
            r == self@.balance(token),
    {
        read_amount(&self.balances, token)
    }

    pub fn get_total_liability(&self, token: Address) -> (r: i128)
        ensures
            r == self@.liability(token),
    {
        read_amount(&self.liabilities, token)
    }
}

} // verus!
