//! The RowStatus state machine that governs the life of conceptual rows.

use vstd::prelude::*;

use crate::pdu::ErrorStatus;
use crate::text::push_signed;
use crate::text::signed_decimal;
use crate::value::Value;
use crate::value::ValueView;

verus! {

/// The six values of the RowStatus textual convention.
#[derive(Clone, Copy, Debug, PartialEq, Eq, Structural)]
pub enum RowStatus {
    /// active(1): the row is in use.
    Active,
    /// notInService(2): the row exists but is not in use.
    NotInService,
    /// notReady(3): the row lacks a required column.
    NotReady,
    /// createAndGo(4): create the row and put it to use.
    CreateAndGo,
    /// createAndWait(5): create the row and leave it out of use.
    CreateAndWait,
    /// destroy(6): delete the row.
    Destroy,
}

impl RowStatus {
    /// The number carried on the wire.
    pub open spec fn number(self) -> i64 {
        match self {
            RowStatus::Active => 1,
            RowStatus::NotInService => 2,
            RowStatus::NotReady => 3,
            RowStatus::CreateAndGo => 4,
            RowStatus::CreateAndWait => 5,
            RowStatus::Destroy => 6,
        }
    }

    /// The status with the given number.
    pub open spec fn of_number(v: i64) -> Option<RowStatus> {
        if v == 1 {
            Some(RowStatus::Active)
        } else if v == 2 {
            Some(RowStatus::NotInService)
        } else if v == 3 {
            Some(RowStatus::NotReady)
        } else if v == 4 {
            Some(RowStatus::CreateAndGo)
        } else if v == 5 {
            Some(RowStatus::CreateAndWait)
        } else if v == 6 {
            Some(RowStatus::Destroy)
        } else {
            None
        }
    }

    /// The name of the status.
    pub open spec fn name(self) -> Seq<char> {
        match self {
            RowStatus::Active => "active"@,
            RowStatus::NotInService => "notInService"@,
            RowStatus::NotReady => "notReady"@,
            RowStatus::CreateAndGo => "createAndGo"@,
            RowStatus::CreateAndWait => "createAndWait"@,
            RowStatus::Destroy => "destroy"@,
        }
    }

    /// The status with the given number; `None` outside 1 to 6.
    pub fn from_i64(v: i64) -> (r: Option<RowStatus>)
        ensures
            r == RowStatus::of_number(v),
    {
        match v {
            1 => Some(RowStatus::Active),
            2 => Some(RowStatus::NotInService),
            3 => Some(RowStatus::NotReady),
            4 => Some(RowStatus::CreateAndGo),
            5 => Some(RowStatus::CreateAndWait),
            6 => Some(RowStatus::Destroy),
            _ => None,
        }
    }

    /// The status that a value carries, as an INTEGER or a Gauge32.
    pub fn from_value(value: &Value) -> (r: Option<RowStatus>)
        ensures
            r == match value@ {
                ValueView::Integer(v) => RowStatus::of_number(v),
                ValueView::Gauge32(v) => RowStatus::of_number(v as i64),
                _ => None,
            },
    {
        match value {
            Value::Integer(v) => RowStatus::from_i64(*v),
            Value::Gauge32(v) => RowStatus::from_i64(*v as i64),
            _ => None,
        }
    }

    /// The number carried on the wire.
    pub fn as_i64(self) -> (r: i64)
        ensures
            r == self.number(),
    {
        match self {
            RowStatus::Active => 1,
            RowStatus::NotInService => 2,
            RowStatus::NotReady => 3,
            RowStatus::CreateAndGo => 4,
            RowStatus::CreateAndWait => 5,
            RowStatus::Destroy => 6,
        }
    }

    /// Whether this asks for a row to be created.
    pub fn is_create(self) -> (r: bool)
        ensures
            r == (self == RowStatus::CreateAndGo || self == RowStatus::CreateAndWait),
    {
        match self {
            RowStatus::CreateAndGo => true,
            RowStatus::CreateAndWait => true,
            _ => false,
        }
    }

    /// The name followed by the number in brackets.
    pub fn to_string(&self) -> (r: String)
        ensures
            r@ == self.name() + seq!['('] + signed_decimal(self.number() as int) + seq![')'],
    {
        let mut out = match self {
            RowStatus::Active => "active".to_owned(),
            RowStatus::NotInService => "notInService".to_owned(),
            RowStatus::NotReady => "notReady".to_owned(),
            RowStatus::CreateAndGo => "createAndGo".to_owned(),
            RowStatus::CreateAndWait => "createAndWait".to_owned(),
            RowStatus::Destroy => "destroy".to_owned(),
        };
        out.push('(');
        push_signed(&mut out, self.as_i64());
        out.push(')');
        assert(out@ =~= self.name() + seq!['('] + signed_decimal(self.number() as int)
            + seq![')']);
        out
    }
}

/// Whether a stored row can have this status: the creation verbs and destroy are requests, not
/// states.
pub open spec fn is_state(s: RowStatus) -> bool {
    s == RowStatus::Active || s == RowStatus::NotInService || s == RowStatus::NotReady
}

/// The outcome of a request to set the status of a row that is in status `current`, or absent.
/// `Ok(None)` means that the row is gone.
pub open spec fn outcome(
    current: Option<RowStatus>,
    requested: RowStatus,
    satisfied: bool,
) -> Result<Option<RowStatus>, ErrorStatus> {
    match (requested, current) {
        (RowStatus::CreateAndGo, Some(_)) => Err(ErrorStatus::InconsistentValue),
        (RowStatus::CreateAndGo, None) => if satisfied {
            Ok(Some(RowStatus::Active))
        } else {
            Err(ErrorStatus::InconsistentName)
        },
        (RowStatus::CreateAndWait, Some(_)) => Err(ErrorStatus::InconsistentValue),
        (RowStatus::CreateAndWait, None) => if satisfied {
            Ok(Some(RowStatus::NotInService))
        } else {
            Ok(Some(RowStatus::NotReady))
        },
        (RowStatus::Destroy, _) => Ok(None),
        (_, None) => Err(ErrorStatus::InconsistentName),
        (RowStatus::Active, Some(s)) => if is_state(s) && satisfied {
            Ok(Some(RowStatus::Active))
        } else {
            Err(ErrorStatus::InconsistentValue)
        },
        (RowStatus::NotInService, Some(s)) => if s == RowStatus::Active || s
            == RowStatus::NotInService {
            Ok(Some(RowStatus::NotInService))
        } else {
            Err(ErrorStatus::InconsistentValue)
        },
        (RowStatus::NotReady, Some(s)) => if s == RowStatus::NotInService || s
            == RowStatus::NotReady {
            Ok(Some(RowStatus::NotReady))
        } else {
            Err(ErrorStatus::InconsistentValue)
        },
    }
}

/// The outcome of a request to set the status of a row. `current` is `None` for an absent row;
/// `required_columns_satisfied` says whether every required column has a value.
pub fn transition(
    current: Option<RowStatus>,
    requested: RowStatus,
    required_columns_satisfied: bool,
) -> (r: Result<Option<RowStatus>, ErrorStatus>)
    ensures
        r == outcome(current, requested, required_columns_satisfied),
{
    match requested {
        RowStatus::CreateAndGo => {
            if current.is_some() {
                return Err(ErrorStatus::InconsistentValue);
            }
            if !required_columns_satisfied {
                return Err(ErrorStatus::InconsistentName);
            }
            Ok(Some(RowStatus::Active))
        },
        RowStatus::CreateAndWait => {
            if current.is_some() {
                return Err(ErrorStatus::InconsistentValue);
            }
            if required_columns_satisfied {
                Ok(Some(RowStatus::NotInService))
            } else {
                Ok(Some(RowStatus::NotReady))
            }
        },
        RowStatus::Destroy => Ok(None),
        RowStatus::Active => match current {
            Some(RowStatus::NotInService) | Some(RowStatus::NotReady) | Some(
                RowStatus::Active,
            ) => {
                if required_columns_satisfied {
                    Ok(Some(RowStatus::Active))
                } else {
                    Err(ErrorStatus::InconsistentValue)
                }
            },
            Some(_) => Err(ErrorStatus::InconsistentValue),
            None => Err(ErrorStatus::InconsistentName),
        },
        RowStatus::NotInService => match current {
            Some(RowStatus::Active) | Some(RowStatus::NotInService) => Ok(
                Some(RowStatus::NotInService),
            ),
            Some(_) => Err(ErrorStatus::InconsistentValue),
            None => Err(ErrorStatus::InconsistentName),
        },
        RowStatus::NotReady => match current {
            Some(RowStatus::NotInService) | Some(RowStatus::NotReady) => Ok(
                Some(RowStatus::NotReady),
            ),
            Some(_) => Err(ErrorStatus::InconsistentValue),
            None => Err(ErrorStatus::InconsistentName),
        },
    }
}

/// A status survives a trip over the wire.
pub proof fn number_reads_back(s: RowStatus)
    ensures
        RowStatus::of_number(s.number()) == Some(s),
{
}

/// Only the numbers 1 to 6 name a status.
pub proof fn numbers_are_one_to_six(v: i64)
    ensures
        RowStatus::of_number(v) is Some <==> 1 <= v <= 6,
        RowStatus::of_number(v) matches Some(s) ==> s.number() == v,
{
}

/// Whatever is requested, a row is left active, out of service or not ready, or is gone: a
/// creation verb or destroy is never a stored status.
pub proof fn rows_stay_in_states(current: Option<RowStatus>, requested: RowStatus, satisfied: bool)
    ensures
        outcome(current, requested, satisfied) matches Ok(Some(s)) ==> is_state(s),
{
}

/// A row becomes active only when every required column has a value.
pub proof fn active_rows_are_complete(
    current: Option<RowStatus>,
    requested: RowStatus,
    satisfied: bool,
)
    ensures
        outcome(current, requested, satisfied) == Ok::<Option<RowStatus>, ErrorStatus>(
            Some(RowStatus::Active),
        ) ==> satisfied,
{
}

/// A row is destroyed only by a destroy request, which always succeeds.
pub proof fn only_destroy_removes(current: Option<RowStatus>, requested: RowStatus, satisfied: bool)
    ensures
        outcome(current, requested, satisfied) == Ok::<Option<RowStatus>, ErrorStatus>(None)
            <==> requested == RowStatus::Destroy,
{
}

} // verus!
