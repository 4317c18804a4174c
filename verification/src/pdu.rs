//! Protocol data units and error codes.

use vstd::prelude::*;

use crate::oid::Oid;
use crate::value::binds;
use crate::value::ValueView;
use crate::value::VarBind;
use crate::value::VarBindView;

verus! {

/// The protocol version of a message.
#[derive(Clone, Copy, Debug, PartialEq, Eq, Structural)]
pub enum Version {
    /// SNMPv1.
    V1,
    /// SNMPv2c.
    V2c,
    /// SNMPv3.
    V3,
}

/// The SNMP error-status codes.
#[derive(Clone, Copy, Debug, PartialEq, Eq, Structural)]
pub enum ErrorStatus {
    /// noError(0).
    NoError,
    /// tooBig(1).
    TooBig,
    /// noSuchName(2).
    NoSuchName,
    /// badValue(3).
    BadValue,
    /// readOnly(4).
    ReadOnly,
    /// genErr(5).
    GenErr,
    /// noAccess(6).
    NoAccess,
    /// wrongType(7).
    WrongType,
    /// wrongLength(8).
    WrongLength,
    /// wrongEncoding(9).
    WrongEncoding,
    /// wrongValue(10).
    WrongValue,
    /// noCreation(11).
    NoCreation,
    /// inconsistentValue(12).
    InconsistentValue,
    /// resourceUnavailable(13).
    ResourceUnavailable,
    /// commitFailed(14).
    CommitFailed,
    /// undoFailed(15).
    UndoFailed,
    /// authorizationError(16).
    AuthorizationError,
    /// notWritable(17).
    NotWritable,
    /// inconsistentName(18).
    InconsistentName,
}

impl ErrorStatus {
    /// The number carried on the wire.
    pub open spec fn code_of(self) -> i64 {
        match self {
            ErrorStatus::NoError => 0,
            ErrorStatus::TooBig => 1,
            ErrorStatus::NoSuchName => 2,
            ErrorStatus::BadValue => 3,
            ErrorStatus::ReadOnly => 4,
            ErrorStatus::GenErr => 5,
            ErrorStatus::NoAccess => 6,
            ErrorStatus::WrongType => 7,
            ErrorStatus::WrongLength => 8,
            ErrorStatus::WrongEncoding => 9,
            ErrorStatus::WrongValue => 10,
            ErrorStatus::NoCreation => 11,
            ErrorStatus::InconsistentValue => 12,
            ErrorStatus::ResourceUnavailable => 13,
            ErrorStatus::CommitFailed => 14,
            ErrorStatus::UndoFailed => 15,
            ErrorStatus::AuthorizationError => 16,
            ErrorStatus::NotWritable => 17,
            ErrorStatus::InconsistentName => 18,
        }
    }

    /// The status with the given number; a number outside the range is genErr.
    pub open spec fn of_code(code: i64) -> ErrorStatus {
        if code == 0 {
            ErrorStatus::NoError
        } else if code == 1 {
            ErrorStatus::TooBig
        } else if code == 2 {
            ErrorStatus::NoSuchName
        } else if code == 3 {
            ErrorStatus::BadValue
        } else if code == 4 {
            ErrorStatus::ReadOnly
        } else if code == 6 {
            ErrorStatus::NoAccess
        } else if code == 7 {
            ErrorStatus::WrongType
        } else if code == 8 {
            ErrorStatus::WrongLength
        } else if code == 9 {
            ErrorStatus::WrongEncoding
        } else if code == 10 {
            ErrorStatus::WrongValue
        } else if code == 11 {
            ErrorStatus::NoCreation
        } else if code == 12 {
            ErrorStatus::InconsistentValue
        } else if code == 13 {
            ErrorStatus::ResourceUnavailable
        } else if code == 14 {
            ErrorStatus::CommitFailed
        } else if code == 15 {
            ErrorStatus::UndoFailed
        } else if code == 16 {
            ErrorStatus::AuthorizationError
        } else if code == 17 {
            ErrorStatus::NotWritable
        } else if code == 18 {
            ErrorStatus::InconsistentName
        } else {
            ErrorStatus::GenErr
        }
    }

    /// The number carried on the wire.
    pub fn code(self) -> (r: i64)
        ensures
            r == self.code_of(),
    {
        match self {
            ErrorStatus::NoError => 0,
            ErrorStatus::TooBig => 1,
            ErrorStatus::NoSuchName => 2,
            ErrorStatus::BadValue => 3,
            ErrorStatus::ReadOnly => 4,
            ErrorStatus::GenErr => 5,
            ErrorStatus::NoAccess => 6,
            ErrorStatus::WrongType => 7,
            ErrorStatus::WrongLength => 8,
            ErrorStatus::WrongEncoding => 9,
            ErrorStatus::WrongValue => 10,
            ErrorStatus::NoCreation => 11,
            ErrorStatus::InconsistentValue => 12,
            ErrorStatus::ResourceUnavailable => 13,
            ErrorStatus::CommitFailed => 14,
            ErrorStatus::UndoFailed => 15,
            ErrorStatus::AuthorizationError => 16,
            ErrorStatus::NotWritable => 17,
            ErrorStatus::InconsistentName => 18,
        }
    }

    /// The status with the given number.
    pub fn from_code(code: i64) -> (r: ErrorStatus)
        ensures
            r == ErrorStatus::of_code(code),
    {
        match code {
            0 => ErrorStatus::NoError,
            1 => ErrorStatus::TooBig,
            2 => ErrorStatus::NoSuchName,
            3 => ErrorStatus::BadValue,
            4 => ErrorStatus::ReadOnly,
            6 => ErrorStatus::NoAccess,
            7 => ErrorStatus::WrongType,
            8 => ErrorStatus::WrongLength,
            9 => ErrorStatus::WrongEncoding,
            10 => ErrorStatus::WrongValue,
            11 => ErrorStatus::NoCreation,
            12 => ErrorStatus::InconsistentValue,
            13 => ErrorStatus::ResourceUnavailable,
            14 => ErrorStatus::CommitFailed,
            15 => ErrorStatus::UndoFailed,
            16 => ErrorStatus::AuthorizationError,
            17 => ErrorStatus::NotWritable,
            18 => ErrorStatus::InconsistentName,
            _ => ErrorStatus::GenErr,
        }
    }

    /// Whether this is noError.
    pub fn is_ok(self) -> (r: bool)
        ensures
            r == (self == ErrorStatus::NoError),
    {
        match self {
            ErrorStatus::NoError => true,
            _ => false,
        }
    }
}

/// Every status survives a trip over the wire.
pub proof fn status_code_reads_back(s: ErrorStatus)
    ensures
        ErrorStatus::of_code(s.code_of()) == s,
{
}

/// The kinds of PDU.
#[derive(Clone, Copy, Debug, PartialEq, Eq, Structural)]
pub enum PduType {
    /// GetRequest.
    Get,
    /// GetNextRequest.
    GetNext,
    /// Response.
    Response,
    /// SetRequest.
    SetRequest,
    /// The SNMPv1 Trap.
    TrapV1,
    /// GetBulkRequest.
    GetBulk,
    /// InformRequest.
    Inform,
    /// The SNMPv2 Trap.
    TrapV2,
    /// Report.
    Report,
}

impl PduType {
    /// The BER tag of this kind of PDU.
    pub open spec fn tag_of(self) -> u8 {
        match self {
            PduType::Get => 0xA0,
            PduType::GetNext => 0xA1,
            PduType::Response => 0xA2,
            PduType::SetRequest => 0xA3,
            PduType::TrapV1 => 0xA4,
            PduType::GetBulk => 0xA5,
            PduType::Inform => 0xA6,
            PduType::TrapV2 => 0xA7,
            PduType::Report => 0xA8,
        }
    }

    /// The BER tag of this kind of PDU.
    pub fn tag(self) -> (r: u8)
        ensures
            r == self.tag_of(),
    {
        match self {
            PduType::Get => 0xA0,
            PduType::GetNext => 0xA1,
            PduType::Response => 0xA2,
            PduType::SetRequest => 0xA3,
            PduType::TrapV1 => 0xA4,
            PduType::GetBulk => 0xA5,
            PduType::Inform => 0xA6,
            PduType::TrapV2 => 0xA7,
            PduType::Report => 0xA8,
        }
    }

    /// The kind of PDU with the given BER tag.
    pub fn from_tag(tag: u8) -> (r: Option<PduType>)
        ensures
            r matches Some(t) ==> t.tag_of() == tag,
            r is None ==> forall|t: PduType| t.tag_of() != tag,
    {
        match tag {
            0xA0 => Some(PduType::Get),
            0xA1 => Some(PduType::GetNext),
            0xA2 => Some(PduType::Response),
            0xA3 => Some(PduType::SetRequest),
            0xA4 => Some(PduType::TrapV1),
            0xA5 => Some(PduType::GetBulk),
            0xA6 => Some(PduType::Inform),
            0xA7 => Some(PduType::TrapV2),
            0xA8 => Some(PduType::Report),
            _ => None,
        }
    }
}

/// A protocol data unit. For GetBulk, `error_status` carries the non-repeaters and
/// `error_index` the max-repetitions.
#[derive(Debug, PartialEq, Eq)]
pub struct Pdu {
    /// The kind.
    pub pdu_type: PduType,
    /// The request identifier.
    pub request_id: i32,
    /// The error status.
    pub error_status: i64,
    /// The 1-based index of the binding in error.
    pub error_index: i64,
    /// The bindings.
    pub variables: Vec<VarBind>,
}

/// The mathematical content of a [`Pdu`].
#[verifier::ext_equal]
pub struct PduView {
    pub pdu_type: PduType,
    pub request_id: i32,
    pub error_status: i64,
    pub error_index: i64,
    pub variables: Seq<VarBindView>,
}

impl View for Pdu {
    type V = PduView;

    open spec fn view(&self) -> PduView {
        PduView {
            pdu_type: self.pdu_type,
            request_id: self.request_id,
            error_status: self.error_status,
            error_index: self.error_index,
            variables: binds(self.variables@),
        }
    }
}

impl Pdu {
    /// A PDU without bindings or error.
    pub fn new(pdu_type: PduType, request_id: i32) -> (r: Pdu)
        ensures
            r@ == (PduView {
                pdu_type,
                request_id,
                error_status: 0,
                error_index: 0,
                variables: seq![],
            }),
    {
        let r = Pdu {
            pdu_type,
            request_id,
            error_status: 0,
            error_index: 0,
            variables: Vec::new(),
        };
        assert(binds(r.variables@) =~= seq![]);
        r
    }

    /// This PDU with one more binding, of `oid` to NULL.
    pub fn with_null_var(self, oid: Oid) -> (r: Pdu)
        ensures
            r@ == (PduView {
                variables: self@.variables.push(
                    VarBindView { oid: oid@, value: ValueView::Null },
                ),
                ..self@
            }),
    {
        let Pdu { pdu_type, request_id, error_status, error_index, variables } = self;
        let mut variables = variables;
        let ghost before = variables@;
        let b = VarBind::null(oid);
        variables.push(b);
        assert(binds(variables@) =~= binds(before).push(b@));
        Pdu { pdu_type, request_id, error_status, error_index, variables }
    }

    /// The error status as an enumeration.
    pub fn status(&self) -> (r: ErrorStatus)
        ensures
            r == ErrorStatus::of_code(self@.error_status),
    {
        ErrorStatus::from_code(self.error_status)
    }

    /// The non-repeaters of a GetBulk.
    pub fn non_repeaters(&self) -> (r: i64)
        ensures
            r == self@.error_status,
    {
        self.error_status
    }

    /// The max-repetitions of a GetBulk.
    pub fn max_repetitions(&self) -> (r: i64)
        ensures
            r == self@.error_index,
    {
        self.error_index
    }
}

} // verus!
