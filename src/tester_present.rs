//! Service 0x3E, TesterPresent: a sub-function and an empty payload.
use vstd::prelude::*;

use crate::error::Iso14229Error;
use crate::service::{Configuration, Request, RequestData, Service, SubFunction};
use crate::utils::{data_length_check, peel_suppress_positive};

verus! {

/// The function codes of TesterPresent.
#[derive(Debug, Clone, Copy, PartialEq, Eq, Structural)]
pub enum TesterPresentType {
    Zero,
}

impl TesterPresentType {
    /// Fails with `InvalidParam` on any code but zero.
    pub fn try_from_code(code: u8) -> (r: Result<Self, Iso14229Error>)
        ensures
            (code == 0) <==> r is Ok,
            r matches Err(e) ==> e is InvalidParam,
    {
        if code == 0 {
            Ok(TesterPresentType::Zero)
        } else {
            Err(Iso14229Error::InvalidParam("invalid tester present type".to_string()))
        }
    }

    pub fn code(&self) -> (r: u8)
        ensures
            r == 0,
    {
        0
    }
}

/// A request of service 0x3E with function code `code` and payload `d` is
/// accepted.
pub open spec fn tester_present_accepts(code: u8, d: Seq<u8>) -> bool {
    code == 0 && d.len() == 0
}

/// A request of service 0x3E; its payload is empty.
#[derive(Debug, Clone, PartialEq, Eq)]
pub struct TesterPresent {
    pub data: Vec<u8>,
}

impl RequestData for TesterPresent {
    open spec fn valid(&self) -> bool {
        self.data@.len() == 0
    }

    /// Builds a request of service 0x3E: the sub-function is required, its
    /// code must be zero, and the payload must be empty.
    fn request(data: &[u8], sub_func: Option<u8>, _cfg: &Configuration) -> (r: Result<Request, Iso14229Error>)
        ensures
            sub_func is None ==> r == Err::<Request, Iso14229Error>(
                Iso14229Error::SubFunctionError(Service::TesterPresent),
            ),
            sub_func matches Some(b) ==> {
                &&& r is Ok <==> tester_present_accepts(b % 0x80, data@)
                &&& r matches Ok(req) ==> {
                    &&& req.service == Service::TesterPresent
                    &&& req.sub_func == Some((SubFunction { function: 0, suppress_positive: b >= 0x80 }))
                    &&& req.data@.len() == 0
                }
                &&& r matches Err(e) ==> if b % 0x80 != 0 {
                    e is InvalidParam
                } else {
                    e == (Iso14229Error::InvalidDataLength { expect: 0, actual: data@.len() as usize })
                }
            },
    {
        match sub_func {
            None => Err(Iso14229Error::SubFunctionError(Service::TesterPresent)),
            Some(b) => {
                let (suppress, code) = peel_suppress_positive(b);
                if let Err(e) = TesterPresentType::try_from_code(code) {
                    return Err(e);
                }
                if let Err(e) = data_length_check(data.len(), 0, true) {
                    return Err(e);
                }
                Ok(Request {
                    service: Service::TesterPresent,
                    sub_func: Some(SubFunction::new(code, suppress)),
                    data: Vec::new(),
                })
            },
        }
    }

    /// Decodes a request of service 0x3E.
    fn try_parse(request: &Request, _cfg: &Configuration) -> (r: Result<Self, Iso14229Error>)
        ensures
            r matches Ok(v) ==> v.valid(),
            (request.service != Service::TesterPresent || request.sub_func is None) ==> r
                == Err::<Self, Iso14229Error>(Iso14229Error::ServiceError(request.service)),
            (request.service == Service::TesterPresent && request.sub_func is Some) ==> {
                let code = request.sub_func.unwrap().function;
                let n = request.data@.len();
                &&& r is Ok <==> tester_present_accepts(code, request.data@)
                &&& r matches Err(e) ==> if code != 0 {
                    e is InvalidParam
                } else {
                    e == (Iso14229Error::InvalidDataLength { expect: 0, actual: n as usize })
                }
            },
    {
        let service = request.service;
        let sub = match request.sub_func {
            Some(s) => s,
            None => return Err(Iso14229Error::ServiceError(service)),
        };
        if service != Service::TesterPresent {
            return Err(Iso14229Error::ServiceError(service));
        }
        if let Err(e) = TesterPresentType::try_from_code(sub.function) {
            return Err(e);
        }
        if let Err(e) = data_length_check(request.data.len(), 0, true) {
            return Err(e);
        }
        Ok(TesterPresent { data: Vec::new() })
    }

    /// Writes the payload, which is empty.
    fn to_vec(self, _cfg: &Configuration) -> (r: Vec<u8>)
        ensures
            r@ == self.data@,
            r@.len() == 0,
    {
        self.data
    }
}

/// The payload that a valid value writes is accepted under function code zero.
pub proof fn lemma_tester_present_round_trip(v: TesterPresent)
    requires
        v.valid(),
    ensures
        tester_present_accepts(0, v.data@),
{
}

} // verus!
