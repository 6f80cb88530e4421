//! MQTT delivery-guarantee levels.

use vstd::prelude::*;

verus! {

/// MQTT delivery guarantee level: 0 (at most once), 1 (at least once),
/// 2 (exactly once).
#[derive(Clone, Copy, Debug, PartialEq, Eq, Structural)]
pub enum QoS {
    AtMostOnce,
    AtLeastOnce,
    ExactlyOnce,
}

impl QoS {
    /// The numeric level of this QoS, as it appears on the wire.
    pub open spec fn spec_level(self) -> int {
        match self {
            QoS::AtMostOnce => 0,
            QoS::AtLeastOnce => 1,
            QoS::ExactlyOnce => 2,
        }
    }

    /// The numeric level of this QoS as a signed integer.
    pub fn to_i32(&self) -> (r: i32)
        ensures
            r == self.spec_level(),
    {
        match *self {
            QoS::AtMostOnce => 0,
            QoS::AtLeastOnce => 1,
            QoS::ExactlyOnce => 2,
        }
    }

    /// The numeric level of this QoS as a wire byte.
    pub fn level_byte(&self) -> (r: u8)
        ensures
            r == self.spec_level(),
    {
        match *self {
            QoS::AtMostOnce => 0,
            QoS::AtLeastOnce => 1,
            QoS::ExactlyOnce => 2,
        }
    }

    /// The QoS with the given numeric level, if the level is a legal one.
    pub open spec fn spec_from_level(level: int) -> Option<QoS> {
        if level == 0 {
            Some(QoS::AtMostOnce)
        } else if level == 1 {
            Some(QoS::AtLeastOnce)
        } else if level == 2 {
            Some(QoS::ExactlyOnce)
        } else {
            None
        }
    }

    /// Reads a QoS back from its numeric level.
    pub fn from_level(level: u8) -> (r: Option<QoS>)
        ensures
            r == QoS::spec_from_level(level as int),
    {
        if level == 0 {
            Some(QoS::AtMostOnce)
        } else if level == 1 {
            Some(QoS::AtLeastOnce)
        } else if level == 2 {
            Some(QoS::ExactlyOnce)
        } else {
            None
        }
    }
}

} // verus!
