//! Plain models of the ILP packets the STREAM core consumes and produces:
//! Prepare, Fulfill and Reject, and the three-character ILP error codes.

use vstd::prelude::*;

use crate::address::Address;

verus! {

/// Class of an ILP error code, given by its first character.
#[derive(Debug, Clone, Copy, PartialEq, Eq, Structural)]
pub enum IlpErrorClass {
    Final,
    Temporary,
    Relative,
    Unknown,
}

/// A three-character ILP error code such as `F99` or `T04`.
#[derive(Debug, Clone, Copy, PartialEq, Eq, Structural)]
pub struct IlpErrorCode {
    pub b0: u8,
    pub b1: u8,
    pub b2: u8,
}

/// The class an ILP error code belongs to.
pub open spec fn class_of(code: IlpErrorCode) -> IlpErrorClass {
    if code.b0 == 0x46 {
        IlpErrorClass::Final
    } else if code.b0 == 0x54 {
        IlpErrorClass::Temporary
    } else if code.b0 == 0x52 {
        IlpErrorClass::Relative
    } else {
        IlpErrorClass::Unknown
    }
}

impl IlpErrorCode {
    /// The code's class: `F` is final, `T` temporary, `R` relative.
    pub fn class(&self) -> (r: IlpErrorClass)
        ensures
            r == class_of(*self),
    {
        if self.b0 == 0x46 {
            IlpErrorClass::Final
        } else if self.b0 == 0x54 {
            IlpErrorClass::Temporary
        } else if self.b0 == 0x52 {
            IlpErrorClass::Relative
        } else {
            IlpErrorClass::Unknown
        }
    }

    /// `F00 Bad Request`.
    pub fn f00_bad_request() -> (r: IlpErrorCode)
        ensures
            r == (IlpErrorCode { b0: 0x46, b1: 0x30, b2: 0x30 }),
    {
        IlpErrorCode { b0: 0x46, b1: 0x30, b2: 0x30 }
    }

    /// `F02 Unreachable`.
    pub fn f02_unreachable() -> (r: IlpErrorCode)
        ensures
            r == (IlpErrorCode { b0: 0x46, b1: 0x30, b2: 0x32 }),
    {
        IlpErrorCode { b0: 0x46, b1: 0x30, b2: 0x32 }
    }

    /// `F06 Unexpected Payment`.
    pub fn f06_unexpected_payment() -> (r: IlpErrorCode)
        ensures
            r == (IlpErrorCode { b0: 0x46, b1: 0x30, b2: 0x36 }),
    {
        IlpErrorCode { b0: 0x46, b1: 0x30, b2: 0x36 }
    }

    /// `F08 Amount Too Large`.
    pub fn f08_amount_too_large() -> (r: IlpErrorCode)
        ensures
            r == (IlpErrorCode { b0: 0x46, b1: 0x30, b2: 0x38 }),
    {
        IlpErrorCode { b0: 0x46, b1: 0x30, b2: 0x38 }
    }

    /// `F99 Application Error`.
    pub fn f99_application_error() -> (r: IlpErrorCode)
        ensures
            r == (IlpErrorCode { b0: 0x46, b1: 0x39, b2: 0x39 }),
    {
        IlpErrorCode { b0: 0x46, b1: 0x39, b2: 0x39 }
    }

    /// `T04 Insufficient Liquidity`.
    pub fn t04_insufficient_liquidity() -> (r: IlpErrorCode)
        ensures
            r == (IlpErrorCode { b0: 0x54, b1: 0x30, b2: 0x34 }),
    {
        IlpErrorCode { b0: 0x54, b1: 0x30, b2: 0x34 }
    }
}

/// Model of an ILP Prepare packet.
pub struct PrepareV {
    pub destination: Seq<u8>,
    pub amount: u64,
    pub expires_at_ms: u64,
    pub execution_condition: Seq<u8>,
    pub data: Seq<u8>,
}

/// An ILP Prepare: a conditional transfer offer to `destination`.
#[derive(Debug, Clone, PartialEq)]
pub struct Prepare {
    pub destination: Address,
    pub amount: u64,
    /// Expiry as milliseconds since the Unix epoch.
    pub expires_at_ms: u64,
    pub execution_condition: [u8; 32],
    pub data: Vec<u8>,
}

impl View for Prepare {
    type V = PrepareV;

    open spec fn view(&self) -> PrepareV {
        PrepareV {
            destination: self.destination@,
            amount: self.amount,
            expires_at_ms: self.expires_at_ms,
            execution_condition: self.execution_condition@,
            data: self.data@,
        }
    }
}

/// Model of an ILP Fulfill packet.
pub struct FulfillV {
    pub fulfillment: Seq<u8>,
    pub data: Seq<u8>,
}

/// An ILP Fulfill: the preimage releasing a Prepare, plus response data.
#[derive(Debug, Clone, PartialEq)]
pub struct Fulfill {
    pub fulfillment: [u8; 32],
    pub data: Vec<u8>,
}

impl View for Fulfill {
    type V = FulfillV;

    open spec fn view(&self) -> FulfillV {
        FulfillV { fulfillment: self.fulfillment@, data: self.data@ }
    }
}

/// Model of an ILP Reject packet.
pub struct RejectV {
    pub code: IlpErrorCode,
    pub message: Seq<u8>,
    pub triggered_by: Option<Seq<u8>>,
    pub data: Seq<u8>,
}

/// An ILP Reject: a refusal with an error code, an optional originator and
/// response data.
#[derive(Debug, Clone, PartialEq)]
pub struct Reject {
    pub code: IlpErrorCode,
    pub message: Vec<u8>,
    pub triggered_by: Option<Address>,
    pub data: Vec<u8>,
}

impl View for Reject {
    type V = RejectV;

    open spec fn view(&self) -> RejectV {
        RejectV {
            code: self.code,
            message: self.message@,
            triggered_by: match self.triggered_by {
                Some(a) => Some(a@),
                None => None,
            },
            data: self.data@,
        }
    }
}

} // verus!
