//! Transactional cells and transaction handles.

use vstd::prelude::*;

verus! {

/// Transaction errors, with a user-definable abort type.
#[derive(Debug, Copy, Clone, PartialEq, Eq)]
pub enum TxError<E> {
    /// Transaction aborted.
    Abort(E),
    /// Resources exhausted.
    Exhausted,
    /// Tried to mutate immutable data.
    Immutable,
}

/// Return type for transactions: the value, or a transaction error.
pub type TxResult<T, E> = Result<T, TxError<E>>;

impl<E> From<E> for TxError<E> {
    fn from(value: E) -> (r: Self) {
        TxError::Abort(value)
    }
}

impl<E> vstd::std_specs::convert::FromSpecImpl<E> for TxError<E> {
    open spec fn obeys_from_spec() -> bool {
        true
    }

    open spec fn from_spec(value: E) -> Self {
        TxError::Abort(value)
    }
}

/// A transaction handle: the capability to mutate transactional data.
///
/// All object handles referenced by one transaction outlive it;
/// implementations decide whether a mutation may proceed.
pub trait TxHandle {
    /// Check that a mutation may proceed under this transaction.
    fn tx_check(&self) -> Result<(), TxError<()>>;
}

/// A transaction cell: interior data that changes only under a
/// transaction handle.
pub struct TxCell<T>(pub T);

impl<T> TxCell<T> {
    /// Wrap a value.
    pub fn new(value: T) -> (r: TxCell<T>)
        ensures
            r.0 == value,
    {
        TxCell(value)
    }

    /// Read the current value.
    pub fn get(&self) -> (r: &T)
        ensures
            *r == self.0,
    {
        &self.0
    }

    /// Set the value of the cell, when the transaction allows it.
    pub fn set<Tx: TxHandle>(&mut self, value: T, tx: &Tx) -> (r: Result<(), TxError<()>>)
        ensures
            r is Ok ==> final(self).0 == value,
            r is Err ==> *final(self) == *old(self),
    {
        match tx.tx_check() {
            Ok(_) => {
                self.0 = value;
                Ok(())
            },
            Err(e) => Err(e),
        }
    }
}

impl<T> From<T> for TxCell<T> {
    fn from(value: T) -> (r: Self) {
        TxCell(value)
    }
}

impl<T> vstd::std_specs::convert::FromSpecImpl<T> for TxCell<T> {
    open spec fn obeys_from_spec() -> bool {
        true
    }

    open spec fn from_spec(value: T) -> Self {
        TxCell(value)
    }
}

/// A transaction handle that allows every mutation.
///
/// The caller takes responsibility for the safety of the mutations it
/// authorizes.
#[derive(Clone, Copy)]
pub struct UnsafeTxHandle {
    _priv: (),
}

impl UnsafeTxHandle {
    /// Conjure an always-allowing handle.
    pub fn new() -> UnsafeTxHandle {
        UnsafeTxHandle { _priv: () }
    }
}

impl TxHandle for UnsafeTxHandle {
    fn tx_check(&self) -> (r: Result<(), TxError<()>>)
        ensures
            r is Ok,
    {
        Ok(())
    }
}

} // verus!
