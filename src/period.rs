//! Service 0x2A, ReadDataByPeriodicIdentifier: a transmission mode and the
//! periodic data identifiers it applies to.
use vstd::prelude::*;
use vstd::slice::slice_to_vec;

use crate::error::{reports, Failure, Iso14229Error};
use crate::service::{Configuration, Request, RequestData, Service};

verus! {

/// How the server is to send the periodic records.
#[derive(Debug, Clone, Copy, PartialEq, Eq, Structural)]
pub enum TransmissionMode {
    SendAtSlowRate,
    SendAtMediumRate,
    SendAtFastRate,
    StopSending,
}

/// The byte of each transmission mode.
pub open spec fn mode_byte(m: TransmissionMode) -> u8 {
    match m {
        TransmissionMode::SendAtSlowRate => 0x01,
        TransmissionMode::SendAtMediumRate => 0x02,
        TransmissionMode::SendAtFastRate => 0x03,
        TransmissionMode::StopSending => 0x04,
    }
}

impl TransmissionMode {
    /// Fails with `InvalidParam` on a byte outside `1..=4`.
    pub fn try_from_byte(value: u8) -> (r: Result<Self, Iso14229Error>)
        ensures
            (1 <= value <= 4) <==> r is Ok,
            r matches Ok(m) ==> mode_byte(m) == value,
            r matches Err(e) ==> e is InvalidParam,
    {
        match value {
            0x01 => Ok(TransmissionMode::SendAtSlowRate),
            0x02 => Ok(TransmissionMode::SendAtMediumRate),
            0x03 => Ok(TransmissionMode::SendAtFastRate),
            0x04 => Ok(TransmissionMode::StopSending),
            _ => Err(Iso14229Error::InvalidParam("invalid transmission mode".to_string())),
        }
    }

    pub fn to_byte(&self) -> (r: u8)
        ensures
            r == mode_byte(*self),
    {
        match self {
            TransmissionMode::SendAtSlowRate => 0x01,
            TransmissionMode::SendAtMediumRate => 0x02,
            TransmissionMode::SendAtFastRate => 0x03,
            TransmissionMode::StopSending => 0x04,
        }
    }
}

/// A mode that sends needs at least one identifier; stopping needs none.
pub open spec fn period_valid(mode: TransmissionMode, did: Seq<u8>) -> bool {
    mode == TransmissionMode::StopSending || did.len() > 0
}

/// The message of the error for a sending mode without identifiers.
pub open spec fn empty_period_id_message() -> Seq<char> {
    "empty period_id"@
}

/// Why payload `d` is refused, if it is.
pub open spec fn period_failure(d: Seq<u8>) -> Option<Failure> {
    if d.len() < 1 {
        Some(Failure::Length { expect: 1, actual: d.len() })
    } else if !(1 <= d[0] <= 4) {
        Some(Failure::Param)
    } else if d[0] != 0x04 && d.len() == 1 {
        Some(Failure::ParamMessage { message: empty_period_id_message() })
    } else {
        None
    }
}

/// The payload of a request with mode `mode` and identifiers `did`.
pub open spec fn period_bytes(mode: TransmissionMode, did: Seq<u8>) -> Seq<u8> {
    seq![mode_byte(mode)] + did
}

pub struct ReadByPeriodIdData {
    mode: TransmissionMode,
    did: Vec<u8>,
}

impl View for ReadByPeriodIdData {
    /// The mode and the identifier bytes.
    type V = (TransmissionMode, Seq<u8>);

    closed spec fn view(&self) -> (TransmissionMode, Seq<u8>) {
        (self.mode, self.did@)
    }
}

impl ReadByPeriodIdData {
    #[verifier::type_invariant]
    spec fn inv(self) -> bool {
        period_valid(self.mode, self.did@)
    }

    /// Fails with `InvalidParam` where a sending mode comes with no identifier.
    pub fn new(mode: TransmissionMode, did: Vec<u8>) -> (r: Result<Self, Iso14229Error>)
        ensures
            period_valid(mode, did@) <==> r is Ok,
            r matches Ok(v) ==> v@ == (mode, did@),
            r matches Err(e) ==> e matches Iso14229Error::InvalidParam(m) && m@ == empty_period_id_message(),
    {
        proof {
            broadcast use vstd::string::group_string_axioms;
            reveal_strlit("empty period_id");
        }
        match mode {
            TransmissionMode::SendAtSlowRate | TransmissionMode::SendAtMediumRate | TransmissionMode::SendAtFastRate => {
                if did.len() == 0 {
                    return Err(Iso14229Error::InvalidParam("empty period_id".to_string()));
                }
            },
            TransmissionMode::StopSending => {},
        }
        Ok(ReadByPeriodIdData { mode, did })
    }

    pub fn transmission_mode(&self) -> (r: TransmissionMode)
        ensures
            r == self@.0,
    {
        self.mode
    }

    pub fn period_did(&self) -> (r: &Vec<u8>)
        ensures
            r@ == self@.1,
            period_valid(self@.0, self@.1),
    {
        proof {
            use_type_invariant(self);
        }
        &self.did
    }

    /// Decodes a payload: the mode byte, then the identifiers.
    pub fn try_from(data: &[u8]) -> (r: Result<Self, Iso14229Error>)
        ensures
            r is Ok <==> period_failure(data@) is None,
            r matches Ok(v) ==> mode_byte(v@.0) == data@[0] && v@.1 == data@.skip(1),
            r matches Err(e) ==> period_failure(data@) matches Some(f) && reports(e, f),
    {
        if data.len() < 1 {
            return Err(Iso14229Error::InvalidDataLength { expect: 1, actual: data.len() });
        }
        let mode = match TransmissionMode::try_from_byte(data[0]) {
            Ok(m) => m,
            Err(e) => return Err(e),
        };
        let did = slice_to_vec(&data[1..data.len()]);
        assert(did@ =~= data@.skip(1));
        Self::new(mode, did)
    }
}

impl RequestData for ReadByPeriodIdData {
    open spec fn valid(&self) -> bool {
        true
    }

    /// Builds a request of service 0x2A. The service has no sub-function:
    /// a sub-function byte given is not checked and not kept.
    fn request(data: &[u8], _sub_func: Option<u8>, _cfg: &Configuration) -> (r: Result<Request, Iso14229Error>)
        ensures
            r is Ok <==> period_failure(data@) is None,
            r matches Ok(req) ==> {
                &&& req.service == Service::ReadDataByPeriodId
                &&& req.sub_func is None
                &&& req.data@ == data@
            },
            r matches Err(e) ==> period_failure(data@) matches Some(f) && reports(e, f),
    {
        if let Err(e) = Self::try_from(data) {
            return Err(e);
        }
        Ok(Request { service: Service::ReadDataByPeriodId, sub_func: None, data: slice_to_vec(data) })
    }

    /// Decodes a request of service 0x2A from its payload alone; the
    /// service has no sub-function, so one that is present is not looked at.
    fn try_parse(request: &Request, _cfg: &Configuration) -> (r: Result<Self, Iso14229Error>)
        ensures
            r matches Ok(v) ==> v.valid(),
            request.service != Service::ReadDataByPeriodId ==> r == Err::<Self, Iso14229Error>(
                Iso14229Error::ServiceError(request.service),
            ),
            request.service == Service::ReadDataByPeriodId ==> {
                &&& r is Ok <==> period_failure(request.data@) is None
                &&& r matches Ok(v) ==> mode_byte(v@.0) == request.data@[0] && v@.1 == request.data@.skip(1)
                &&& r matches Err(e) ==> period_failure(request.data@) matches Some(f) && reports(e, f)
            },
    {
        if request.service != Service::ReadDataByPeriodId {
            return Err(Iso14229Error::ServiceError(request.service));
        }
        Self::try_from(request.data.as_slice())
    }

    /// Writes the mode byte, then the identifiers.
    fn to_vec(self, _cfg: &Configuration) -> (r: Vec<u8>)
        ensures
            r@ == period_bytes(self@.0, self@.1),
    {
        let mut result: Vec<u8> = Vec::new();
        result.push(self.mode.to_byte());
        let mut did = self.did;
        result.append(&mut did);
        assert(result@ =~= period_bytes(self@.0, self@.1));
        result
    }
}

/// Decoding the payload that a valid request writes succeeds and gives back
/// its mode and identifiers.
pub proof fn lemma_period_round_trip(mode: TransmissionMode, did: Seq<u8>)
    requires
        period_valid(mode, did),
    ensures
        period_failure(period_bytes(mode, did)) is None,
        period_bytes(mode, did)[0] == mode_byte(mode),
        period_bytes(mode, did).skip(1) == did,
{
    assert(period_bytes(mode, did).skip(1) =~= did);
}

} // verus!
