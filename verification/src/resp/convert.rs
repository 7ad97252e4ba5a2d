//! Every kind of value as a frame.

use crate::resp::{
    BulkString, RespArray, RespFrame, RespNull, RespNullArray, RespNullBulkString, RespSet,
    SimpleError, SimpleString,
};
use crate::resp::double::RespDouble;
use crate::resp::map::RespMap;
use vstd::prelude::*;
use vstd::std_specs::convert::FromSpecImpl;

verus! {

impl From<SimpleString> for RespFrame {
    fn from(value: SimpleString) -> (r: Self) {
        RespFrame::SimpleSting(value)
    }
}

impl FromSpecImpl<SimpleString> for RespFrame {
    open spec fn obeys_from_spec() -> bool {
        true
    }

    open spec fn from_spec(value: SimpleString) -> Self {
        RespFrame::SimpleSting(value)
    }
}

impl From<SimpleError> for RespFrame {
    fn from(value: SimpleError) -> (r: Self) {
        RespFrame::Error(value)
    }
}

impl FromSpecImpl<SimpleError> for RespFrame {
    open spec fn obeys_from_spec() -> bool {
        true
    }

    open spec fn from_spec(value: SimpleError) -> Self {
        RespFrame::Error(value)
    }
}

impl From<i64> for RespFrame {
    fn from(value: i64) -> (r: Self) {
        RespFrame::Integer(value)
    }
}

impl FromSpecImpl<i64> for RespFrame {
    open spec fn obeys_from_spec() -> bool {
        true
    }

    open spec fn from_spec(value: i64) -> Self {
        RespFrame::Integer(value)
    }
}

impl From<BulkString> for RespFrame {
    fn from(value: BulkString) -> (r: Self) {
        RespFrame::BulkString(value)
    }
}

impl FromSpecImpl<BulkString> for RespFrame {
    open spec fn obeys_from_spec() -> bool {
        true
    }

    open spec fn from_spec(value: BulkString) -> Self {
        RespFrame::BulkString(value)
    }
}

impl From<RespArray> for RespFrame {
    fn from(value: RespArray) -> (r: Self) {
        RespFrame::Array(value)
    }
}

impl FromSpecImpl<RespArray> for RespFrame {
    open spec fn obeys_from_spec() -> bool {
        true
    }

    open spec fn from_spec(value: RespArray) -> Self {
        RespFrame::Array(value)
    }
}

impl From<RespNull> for RespFrame {
    fn from(value: RespNull) -> (r: Self) {
        RespFrame::Null(value)
    }
}

impl FromSpecImpl<RespNull> for RespFrame {
    open spec fn obeys_from_spec() -> bool {
        true
    }

    open spec fn from_spec(value: RespNull) -> Self {
        RespFrame::Null(value)
    }
}

impl From<RespNullArray> for RespFrame {
    fn from(value: RespNullArray) -> (r: Self) {
        RespFrame::NullArray(value)
    }
}

impl FromSpecImpl<RespNullArray> for RespFrame {
    open spec fn obeys_from_spec() -> bool {
        true
    }

    open spec fn from_spec(value: RespNullArray) -> Self {
        RespFrame::NullArray(value)
    }
}

impl From<RespNullBulkString> for RespFrame {
    fn from(value: RespNullBulkString) -> (r: Self) {
        RespFrame::NullBulkString(value)
    }
}

impl FromSpecImpl<RespNullBulkString> for RespFrame {
    open spec fn obeys_from_spec() -> bool {
        true
    }

    open spec fn from_spec(value: RespNullBulkString) -> Self {
        RespFrame::NullBulkString(value)
    }
}

impl From<bool> for RespFrame {
    fn from(value: bool) -> (r: Self) {
        RespFrame::Boolean(value)
    }
}

impl FromSpecImpl<bool> for RespFrame {
    open spec fn obeys_from_spec() -> bool {
        true
    }

    open spec fn from_spec(value: bool) -> Self {
        RespFrame::Boolean(value)
    }
}

impl From<RespDouble> for RespFrame {
    fn from(value: RespDouble) -> (r: Self) {
        RespFrame::Double(value)
    }
}

impl FromSpecImpl<RespDouble> for RespFrame {
    open spec fn obeys_from_spec() -> bool {
        true
    }

    open spec fn from_spec(value: RespDouble) -> Self {
        RespFrame::Double(value)
    }
}

impl From<RespMap> for RespFrame {
    fn from(value: RespMap) -> (r: Self) {
        RespFrame::RespMap(value)
    }
}

impl FromSpecImpl<RespMap> for RespFrame {
    open spec fn obeys_from_spec() -> bool {
        true
    }

    open spec fn from_spec(value: RespMap) -> Self {
        RespFrame::RespMap(value)
    }
}

impl From<RespSet> for RespFrame {
    fn from(value: RespSet) -> (r: Self) {
        RespFrame::RespSet(value)
    }
}

impl FromSpecImpl<RespSet> for RespFrame {
    open spec fn obeys_from_spec() -> bool {
        true
    }

    open spec fn from_spec(value: RespSet) -> Self {
        RespFrame::RespSet(value)
    }
}

} // verus!
