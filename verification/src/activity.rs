//! The exchange with the activity daemon, which tells how long ago the
//! last input was.

use crate::msg::{ActivityMessage, Encoding};
use crate::socket::{base64url_decode, expect_reply, EOT};
use crate::time::Duration;
use crate::wire::{parse_duration, ser_duration};
use vstd::prelude::*;

verus! {

/// The inactivity that the activity daemon reports in what was read from
/// its socket up to and with the delimiter.
pub open spec fn inactivity_in(raw: Seq<u8>) -> Option<Duration> {
    if raw.len() > 1 && raw.last() == EOT {
        match base64url_decode(raw.drop_last()) {
            Some(payload) => match parse_duration(payload) {
                Some((d, rest)) => if rest.len() == 0 {
                    Some(d)
                } else {
                    None
                },
                None => None,
            },
            None => None,
        }
    } else {
        None
    }
}

/// The inactivity that the activity daemon reports. Where what was read is
/// no such report, there is no reading, and the next heartbeat goes on
/// without one.
pub fn read_inactivity(raw: &[u8]) -> (r: Option<Duration>)
    ensures
        r == inactivity_in(raw@),
{
    proof {
        if raw@.len() == 1 && raw@.last() == EOT {
            assert(raw@ =~= seq![EOT]);
        }
    }
    match expect_reply(raw) {
        Ok(payload) => {
            proof {
                match parse_duration(payload@) {
                    Some((d, rest)) => {
                        if rest.len() == 0 {
                            assert(rest =~= Seq::<u8>::empty());
                        }
                    },
                    None => {},
                }
            }
            match Duration::decode(payload.as_slice()) {
                Ok(d) => Some(d),
                Err(_) => None,
            }
        },
        Err(_) => None,
    }
}

/// What the activity daemon answers to a request, with the time since the
/// last input as it stands: that time, to the one request there is, and
/// nothing to bytes that are no request.
pub fn answer_activity(request: &[u8], inactivity: Duration) -> (r: Option<Vec<u8>>)
    ensures
        r is Some <==> request@ == seq![0u8],
        r matches Some(bytes) ==> bytes@ == ser_duration(inactivity),
{
    match ActivityMessage::decode(request) {
        Ok(ActivityMessage::Get) => Some(inactivity.encode()),
        Err(_) => None,
    }
}

} // verus!
