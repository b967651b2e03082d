//! Transaction execution shared by production and simulation: validation,
//! applicability against a state, and application.
use vstd::prelude::*;
use crate::asset::canonical;
use crate::encoding::{decimal, push_decimal};
use crate::error::{PlatariumError, error_text, is_state_error, state_error};
use crate::state::{
    State,
    StateSnapshot,
    asset_balance,
    fault_text,
    nonce_of,
    transfer_fault,
    transferred,
    uplp_balance,
};
use crate::transaction::{Transaction, basic_fault, basic_fault_text};

verus! {

#[derive(Debug, Clone, Copy, PartialEq, Eq, Structural)]
pub enum ExecutionContext {
    Production,
    Simulation,
}

#[derive(Debug, Clone, PartialEq, Eq)]
pub enum ExecutionError {
    CommitNotAllowedInSimulation,
    Other(String),
}

/// The outcome of a simulation: the resulting snapshot, or the error's text.
#[derive(Debug)]
pub struct ExecutionResult {
    pub success: bool,
    pub final_state: Option<StateSnapshot>,
    pub error: Option<String>,
}

/// Why a validated transaction cannot be applied to a state, first failing
/// check in the order nonce, asset balance, μPLP balance; `None` if it can.
pub open spec fn applicability_text(b: crate::state::Balances, tx: Transaction) -> Option<Seq<char>> {
    if nonce_of(b, tx.from@) != tx.nonce {
        Some(
            "Invalid nonce: expected "@ + decimal(tx.nonce as nat) + ", got "@ + decimal(
                nonce_of(b, tx.from@) as nat,
            ),
        )
    } else if asset_balance(b, tx.from@, canonical(tx.asset)) < tx.amount {
        Some(
            "Insufficient asset balance: required "@ + decimal(tx.amount as nat) + ", available "@
                + decimal(asset_balance(b, tx.from@, canonical(tx.asset)) as nat),
        )
    } else if uplp_balance(b, tx.from@) < tx.fee_uplp {
        Some(
            "Insufficient μPLP for fee: required "@ + decimal(tx.fee_uplp as nat) + ", available "@
                + decimal(uplp_balance(b, tx.from@) as nat),
        )
    } else {
        None
    }
}

/// What executing `tx` on a state with contents `b` leaves: `None` where it fails.
pub open spec fn executed(b: crate::state::Balances, tx: Transaction) -> Option<crate::state::Balances> {
    if basic_fault(tx).is_some() || applicability_text(b, tx).is_some() || transfer_fault(
        b,
        tx.from@,
        tx.to@,
        canonical(tx.asset),
        tx.amount,
        tx.fee_uplp,
        Some(tx.nonce),
    ).is_some() {
        None
    } else {
        Some(
            transferred(
                b,
                tx.from@,
                tx.to@,
                canonical(tx.asset),
                tx.amount,
                tx.fee_uplp,
                Some(tx.nonce),
            ),
        )
    }
}

/// The message of the error that executing `tx` on contents `b` fails with:
/// validation first, then applicability, then the transfer itself.
pub open spec fn execution_fault_text(b: crate::state::Balances, tx: Transaction) -> Seq<char> {
    if basic_fault_text(tx).is_some() {
        "Transaction validation error: "@ + basic_fault_text(tx).unwrap()
    } else if applicability_text(b, tx).is_some() {
        applicability_text(b, tx).unwrap()
    } else {
        fault_text(
            transfer_fault(
                b,
                tx.from@,
                tx.to@,
                canonical(tx.asset),
                tx.amount,
                tx.fee_uplp,
                Some(tx.nonce),
            ).unwrap(),
        )
    }
}

impl ExecutionResult {
    pub fn success(final_state: StateSnapshot) -> (r: Self)
        ensures
            r.success,
            r.final_state == Some(final_state),
            r.error.is_none(),
    {
        ExecutionResult { success: true, final_state: Some(final_state), error: None }
    }

    pub fn failure(error: String) -> (r: Self)
        ensures
            !r.success,
            r.final_state.is_none(),
            r.error == Some(error),
    {
        ExecutionResult { success: false, final_state: None, error: Some(error) }
    }

    pub fn is_success(&self) -> (r: bool)
        ensures
            r == self.success,
    {
        self.success
    }

    pub fn is_failure(&self) -> (r: bool)
        ensures
            r == !self.success,
    {
        !self.success
    }

    pub fn get_final_state(&self) -> (r: Option<&StateSnapshot>)
        ensures
            r == match self.final_state {
                Some(s) => Some(&s),
                None => None::<&StateSnapshot>,
            },
    {
        match &self.final_state {
            Some(s) => Some(s),
            None => None,
        }
    }

    pub fn get_error(&self) -> (r: Option<&str>)
        ensures
            r.is_some() == self.error.is_some(),
            r.is_some() ==> r.unwrap()@ == self.error.unwrap()@,
    {
        match &self.error {
            Some(s) => Some(s.as_str()),
            None => None,
        }
    }
}

/// The steps of executing a transaction.
pub struct ExecutionLogic;

impl ExecutionLogic {
    /// Basic validation; its error is reported as a state error.
    pub fn validate_transaction(tx: &Transaction) -> (r: Result<(), PlatariumError>)
        ensures
            r.is_ok() == basic_fault(*tx).is_none(),
            r matches Err(e) ==> is_state_error(
                e,
                "Transaction validation error: "@ + basic_fault_text(*tx).unwrap(),
            ),
    {
        match tx.validate_basic() {
            Ok(()) => Ok(()),
            Err(e) => {
                let m = e.message();
                Err(state_error("Transaction validation error: ", &m))
            },
        }
    }

    /// Checks, in order, that the nonce matches and that the asset and μPLP
    /// balances of the sender cover the amount and the fee.
    pub fn check_transaction_applicability(state: &State, tx: &Transaction) -> (r: Result<
        (),
        PlatariumError,
    >)
        requires
            state.wf(),
        ensures
            match applicability_text(state@, *tx) {
                None => r.is_ok(),
                Some(text) => r matches Err(e) && is_state_error(e, text),
            },
    {
        let current_nonce = state.get_nonce(&tx.from);
        if current_nonce != tx.nonce {
            let mut m = String::from_str("Invalid nonce: expected ");
            push_decimal(&mut m, tx.nonce as u128);
            m.append(", got ");
            push_decimal(&mut m, current_nonce as u128);
            return Err(PlatariumError::State(m));
        }
        let asset_bal = state.get_asset_balance(&tx.from, &tx.asset);
        if asset_bal < tx.amount {
            let mut m = String::from_str("Insufficient asset balance: required ");
            push_decimal(&mut m, tx.amount);
            m.append(", available ");
            push_decimal(&mut m, asset_bal);
            return Err(PlatariumError::State(m));
        }
        let uplp_bal = state.get_uplp_balance(&tx.from);
        if uplp_bal < tx.fee_uplp {
            let mut m = String::from_str("Insufficient μPLP for fee: required ");
            push_decimal(&mut m, tx.fee_uplp);
            m.append(", available ");
            push_decimal(&mut m, uplp_bal);
            return Err(PlatariumError::State(m));
        }
        Ok(())
    }

    /// Applies the transfer, expecting the transaction's nonce.
    pub fn apply_transaction_effects(state: &mut State, tx: &Transaction) -> (r: Result<
        (),
        PlatariumError,
    >)
        requires
            old(state).wf(),
        ensures
            final(state).wf(),
            ({
                let fault = transfer_fault(
                    old(state)@,
                    tx.from@,
                    tx.to@,
                    canonical(tx.asset),
                    tx.amount,
                    tx.fee_uplp,
                    Some(tx.nonce),
                );
                match r {
                    Ok(()) => fault.is_none() && final(state)@ == transferred(
                        old(state)@,
                        tx.from@,
                        tx.to@,
                        canonical(tx.asset),
                        tx.amount,
                        tx.fee_uplp,
                        Some(tx.nonce),
                    ),
                    Err(e) => fault.is_some() && is_state_error(e, fault_text(fault.unwrap()))
                        && final(state)@ == old(state)@,
                }
            }),
    {
        state.apply_transfer(&tx.from, &tx.to, &tx.asset, tx.amount, tx.fee_uplp, Some(tx.nonce))
    }

    /// Validates, checks and applies `tx` on `state`. On an error the state is unchanged.
    pub fn execute_transaction(state: &mut State, tx: &Transaction, _context: ExecutionContext) -> (r:
        Result<(), PlatariumError>)
        requires
            old(state).wf(),
        ensures
            final(state).wf(),
            r.is_ok() == executed(old(state)@, *tx).is_some(),
            r.is_ok() ==> final(state)@ == executed(old(state)@, *tx).unwrap(),
            r.is_err() ==> final(state)@ == old(state)@,
            r matches Err(e) ==> is_state_error(e, execution_fault_text(old(state)@, *tx)),
    {
        Self::validate_transaction(tx)?;
        Self::check_transaction_applicability(state, tx)?;
        Self::apply_transaction_effects(state, tx)?;
        Ok(())
    }

    /// Committing is allowed in production only.
    pub fn commit(context: ExecutionContext) -> (r: Result<(), PlatariumError>)
        ensures
            r.is_ok() == (context == ExecutionContext::Production),
            r matches Err(e) ==> is_state_error(
                e,
                "Execution error: Commit not allowed in simulation mode"@,
            ),
    {
        match context {
            ExecutionContext::Production => Ok(()),
            ExecutionContext::Simulation => Err(
                PlatariumError::State(
                    String::from_str("Execution error: Commit not allowed in simulation mode"),
                ),
            ),
        }
    }

    /// Executes `tx` on a fresh state restored from `snapshot`, touching
    /// neither the snapshot nor any other state. On success the result holds a
    /// snapshot of the outcome; on failure the error's text.
    pub fn simulate(tx: &Transaction, snapshot: &StateSnapshot) -> (r: ExecutionResult)
        ensures
            r.success == executed(snapshot@, *tx).is_some(),
            r.success ==> r.final_state.is_some() && r.final_state.unwrap()@ == executed(
                snapshot@,
                *tx,
            ).unwrap() && r.error.is_none(),
            !r.success ==> r.final_state.is_none() && r.error.is_some() && r.error.unwrap()@ == "State error: "@
                + execution_fault_text(snapshot@, *tx),
    {
        let mut temp_state = State::new();
        temp_state.restore(snapshot);
        match Self::execute_transaction(&mut temp_state, tx, ExecutionContext::Simulation) {
            Ok(()) => {
                let final_state = temp_state.snapshot();
                ExecutionResult::success(final_state)
            },
            Err(e) => ExecutionResult::failure(e.to_string()),
        }
    }
}

} // verus!
