//! The callback receiver: consumes the gateway's settlement callback and
//! keeps the last received result for observability. It accepts calls only
//! from the configured gateway identity.

use vstd::prelude::*;

verus! {

/// The payload of the last callback the receiver accepted.
pub struct LastResult {
    pub job_id: String,
    pub caller: String,
    pub public_output: String,
    pub result_commitment: String,
    pub receipt_ref: String,
    pub received_at_ms: u64,
}

/// The mathematical value of a [`LastResult`].
#[verifier::ext_equal]
pub struct LastResultModel {
    pub job_id: Seq<char>,
    pub caller: Seq<char>,
    pub public_output: Seq<char>,
    pub result_commitment: Seq<char>,
    pub receipt_ref: Seq<char>,
    pub received_at_ms: u64,
}

impl View for LastResult {
    type V = LastResultModel;

    open spec fn view(&self) -> LastResultModel {
        LastResultModel {
            job_id: self.job_id@,
            caller: self.caller@,
            public_output: self.public_output@,
            result_commitment: self.result_commitment@,
            receipt_ref: self.receipt_ref@,
            received_at_ms: self.received_at_ms,
        }
    }
}

impl Clone for LastResult {
    fn clone(&self) -> (r: Self)
        ensures
            r == *self,
    {
        LastResult {
            job_id: self.job_id.clone(),
            caller: self.caller.clone(),
            public_output: self.public_output.clone(),
            result_commitment: self.result_commitment.clone(),
            receipt_ref: self.receipt_ref.clone(),
            received_at_ms: self.received_at_ms,
        }
    }
}

/// The reason a callback is refused.
#[derive(Clone, Copy, Debug, PartialEq, Eq, Structural)]
pub enum CallbackError {
    UnauthorizedCaller,
}

/// The receiver's state: the gateway identity it trusts and the last
/// accepted result.
pub struct ShadeCallbackDemo {
    pub gateway: String,
    pub last: Option<LastResult>,
}

/// The mathematical value of a [`ShadeCallbackDemo`].
#[verifier::ext_equal]
pub struct ReceiverModel {
    pub gateway: Seq<char>,
    pub last: Option<LastResultModel>,
}

impl View for ShadeCallbackDemo {
    type V = ReceiverModel;

    open spec fn view(&self) -> ReceiverModel {
        ReceiverModel {
            gateway: self.gateway@,
            last: match self.last {
                Some(l) => Some(l@),
                None => None,
            },
        }
    }
}

impl ShadeCallbackDemo {
    /// A fresh receiver bound to a gateway identity, with no result yet.
    pub fn new(gateway: String) -> (r: ShadeCallbackDemo)
        ensures
            r@.gateway == gateway@,
            r@.last is None,
    {
        ShadeCallbackDemo { gateway, last: None }
    }

    /// The gateway's settlement callback. Accepted only when the caller is
    /// the configured gateway; then the payload replaces the stored last
    /// result. A refusal leaves the state unchanged.
    pub fn on_private_result(
        &mut self,
        caller: String,
        received_at_ms: u64,
        job_id: String,
        public_output: String,
        result_commitment: String,
        receipt_ref: String,
    ) -> (r: Result<(), CallbackError>)
        ensures
            match r {
                Err(e) => e == CallbackError::UnauthorizedCaller && caller@ != old(self)@.gateway
                    && final(self)@ == old(self)@,
                Ok(_) => caller@ == old(self)@.gateway && final(self)@.gateway == old(
                    self,
                )@.gateway && final(self)@.last == Some(
                    LastResultModel {
                        job_id: job_id@,
                        caller: caller@,
                        public_output: public_output@,
                        result_commitment: result_commitment@,
                        receipt_ref: receipt_ref@,
                        received_at_ms,
                    },
                ),
            },
    {
        if !(caller == self.gateway) {
            return Err(CallbackError::UnauthorizedCaller);
        }
        self.last = Some(
            LastResult {
                job_id,
                caller,
                public_output,
                result_commitment,
                receipt_ref,
                received_at_ms,
            },
        );
        Ok(())
    }

    /// The last accepted result, if any.
    pub fn get_last_result(&self) -> (r: Option<LastResult>)
        ensures
            match r {
                Some(l) => self@.last == Some(l@),
                None => self@.last is None,
            },
    {
        match &self.last {
            Some(l) => Some(l.clone()),
            None => None,
        }
    }

    /// The gateway identity this receiver accepts callbacks from.
    pub fn get_gateway(&self) -> (r: String)
        ensures
            r@ == self@.gateway,
    {
        self.gateway.clone()
    }
}

} // verus!
