use vstd::prelude::*;

verus! {

/// The kinds of event that the runtime's profiling hook reports, in the
/// order of their numeric codes.
#[derive(Clone, Copy, Debug, PartialEq, Eq, Structural)]
pub enum TraceEvent {
    Call,
    Exception,
    Line,
    Return,
    CCall,
    CException,
    CReturn,
    Opcode,
}

/// Number of event codes the hook can report; codes run from zero up to
/// one less than this.
pub const EVENT_CODE_COUNT: i32 = 8;

/// The event that a valid numeric code stands for.
pub open spec fn event_of_code(code: int) -> TraceEvent
    recommends
        0 <= code < EVENT_CODE_COUNT,
{
    if code == 0 {
        TraceEvent::Call
    } else if code == 1 {
        TraceEvent::Exception
    } else if code == 2 {
        TraceEvent::Line
    } else if code == 3 {
        TraceEvent::Return
    } else if code == 4 {
        TraceEvent::CCall
    } else if code == 5 {
        TraceEvent::CException
    } else if code == 6 {
        TraceEvent::CReturn
    } else {
        TraceEvent::Opcode
    }
}

/// A numeric code outside the range of known events.
#[derive(Clone, Copy, Debug, PartialEq, Eq, Structural)]
pub struct UnknownEventCode {
    pub code: i32,
}

impl TraceEvent {
    /// Decodes a raw event code; any code outside the known range is
    /// rejected rather than cast.
    pub fn try_from(value: i32) -> (r: Result<TraceEvent, UnknownEventCode>)
        ensures
            0 <= value < EVENT_CODE_COUNT ==> r == Ok::<TraceEvent, UnknownEventCode>(
                event_of_code(value as int),
            ),
            !(0 <= value < EVENT_CODE_COUNT) ==> r == Err::<TraceEvent, UnknownEventCode>(
                UnknownEventCode { code: value },
            ),
    {
        match value {
            0 => Ok(TraceEvent::Call),
            1 => Ok(TraceEvent::Exception),
            2 => Ok(TraceEvent::Line),
            3 => Ok(TraceEvent::Return),
            4 => Ok(TraceEvent::CCall),
            5 => Ok(TraceEvent::CException),
            6 => Ok(TraceEvent::CReturn),
            7 => Ok(TraceEvent::Opcode),
            _ => Err(UnknownEventCode { code: value }),
        }
    }

    /// Whether the event is one the profiler acts on (a call or a return).
    pub fn is_profiled(&self) -> (r: bool)
        ensures
            r == (*self == TraceEvent::Call || *self == TraceEvent::Return),
    {
        match self {
            TraceEvent::Call => true,
            TraceEvent::Return => true,
            _ => false,
        }
    }
}

} // verus!
