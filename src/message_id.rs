use vstd::prelude::*;

verus! {

/// Identifier the broker assigns to a message; totally ordered.
#[derive(Debug, Clone, Copy, PartialEq, Eq, Structural, Ord, Hash)]
pub struct MessageId(pub i64);

impl MessageId {
    pub open spec fn value(self) -> i64 {
        self.0
    }

    pub fn new(value: i64) -> (r: Self)
        ensures
            r.value() == value,
    {
        MessageId(value)
    }

    /// Wraps the value if there is one.
    pub fn from(value: Option<i64>) -> (r: Option<Self>)
        ensures
            value.is_none() ==> r.is_none(),
            value.is_some() ==> r == Some(MessageId(value.unwrap())),
    {
        match value {
            Some(v) => Some(MessageId(v)),
            None => None,
        }
    }

    pub fn get_value(&self) -> (r: i64)
        ensures
            r == self.value(),
    {
        self.0
    }
}

/// Ids are ordered as their values.
pub open spec fn order_of(a: i64, b: i64) -> core::cmp::Ordering {
    if a < b {
        core::cmp::Ordering::Less
    } else if a == b {
        core::cmp::Ordering::Equal
    } else {
        core::cmp::Ordering::Greater
    }
}

impl PartialOrd for MessageId {
    fn partial_cmp(&self, other: &MessageId) -> (r: Option<core::cmp::Ordering>) {
        if self.0 < other.0 {
            Some(core::cmp::Ordering::Less)
        } else if self.0 == other.0 {
            Some(core::cmp::Ordering::Equal)
        } else {
            Some(core::cmp::Ordering::Greater)
        }
    }
}

impl vstd::std_specs::cmp::PartialOrdSpecImpl for MessageId {
    open spec fn obeys_partial_cmp_spec() -> bool {
        true
    }

    open spec fn partial_cmp_spec(&self, other: &MessageId) -> Option<core::cmp::Ordering> {
        Some(order_of(self.0, other.0))
    }
}

impl From<i64> for MessageId {
    fn from(value: i64) -> (r: MessageId) {
        MessageId(value)
    }
}

impl vstd::std_specs::convert::FromSpecImpl<i64> for MessageId {
    open spec fn obeys_from_spec() -> bool {
        true
    }

    open spec fn from_spec(value: i64) -> MessageId {
        MessageId(value)
    }
}

impl From<MessageId> for i64 {
    fn from(id: MessageId) -> (r: i64) {
        id.0
    }
}

impl vstd::std_specs::convert::FromSpecImpl<MessageId> for i64 {
    open spec fn obeys_from_spec() -> bool {
        true
    }

    open spec fn from_spec(id: MessageId) -> i64 {
        id.0
    }
}

} // verus!
