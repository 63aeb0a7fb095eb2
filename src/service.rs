//! The request envelope and the codec contract that every service meets.
use vstd::prelude::*;

use crate::error::Iso14229Error;
use crate::utils::{join_suppress_positive, sub_function_byte};

verus! {

/// The services whose requests this library encodes and decodes.
#[derive(Debug, Clone, Copy, PartialEq, Eq, Structural)]
pub enum Service {
    ReadMemByAddr,
    ReadDataByPeriodId,
    DynamicalDefineDID,
    WriteMemByAddr,
    TesterPresent,
}

/// The service identifier byte of each service.
pub open spec fn service_id(service: Service) -> u8 {
    match service {
        Service::ReadMemByAddr => 0x23,
        Service::ReadDataByPeriodId => 0x2A,
        Service::DynamicalDefineDID => 0x2C,
        Service::WriteMemByAddr => 0x3D,
        Service::TesterPresent => 0x3E,
    }
}

impl Service {
    /// The service identifier byte.
    pub fn id(&self) -> (r: u8)
        ensures
            r == service_id(*self),
    {
        match self {
            Service::ReadMemByAddr => 0x23,
            Service::ReadDataByPeriodId => 0x2A,
            Service::DynamicalDefineDID => 0x2C,
            Service::WriteMemByAddr => 0x3D,
            Service::TesterPresent => 0x3E,
        }
    }
}

/// A sub-function: a function code of seven bits and the
/// suppress-positive-response flag that travels in the high bit.
#[derive(Debug, Clone, Copy, PartialEq, Eq, Structural)]
pub struct SubFunction {
    pub function: u8,
    pub suppress_positive: bool,
}

impl SubFunction {
    pub fn new(function: u8, suppress_positive: bool) -> (r: Self)
        ensures
            r.function == function,
            r.suppress_positive == suppress_positive,
    {
        SubFunction { function, suppress_positive }
    }

    /// The function code.
    pub fn function_code(&self) -> (r: u8)
        ensures
            r == self.function,
    {
        self.function
    }

    pub fn is_suppress_positive(&self) -> (r: bool)
        ensures
            r == self.suppress_positive,
    {
        self.suppress_positive
    }

    /// The byte on the wire: the function code with the flag in bit 7.
    pub fn to_byte(&self) -> (r: u8)
        ensures
            r == sub_function_byte(self.function, self.suppress_positive),
    {
        join_suppress_positive(self.function, self.suppress_positive)
    }
}

/// A raw request: the service, the sub-function where the service has one,
/// and the payload that follows.
#[derive(Debug, Clone, PartialEq, Eq)]
pub struct Request {
    pub service: Service,
    pub sub_func: Option<SubFunction>,
    pub data: Vec<u8>,
}

impl Request {
    pub fn service(&self) -> (r: Service)
        ensures
            r == self.service,
    {
        self.service
    }

    pub fn sub_function(&self) -> (r: Option<SubFunction>)
        ensures
            r == self.sub_func,
    {
        self.sub_func
    }

    pub fn data(&self) -> (r: &Vec<u8>)
        ensures
            r@ == self.data@,
    {
        &self.data
    }
}

/// Protocol options handed to every codec call; the codecs of this library
/// read none of them.
#[derive(Debug, Clone, Copy, PartialEq, Eq, Structural)]
pub struct Configuration {}

impl Configuration {
    pub fn new() -> (r: Self) {
        Configuration {}
    }
}

/// What every service codec offers: build a request from raw parts, decode a
/// request into a structured value, and write a structured value back out.
pub trait RequestData: Sized {
    /// The values that can be written out.
    spec fn valid(&self) -> bool;

    fn request(data: &[u8], sub_func: Option<u8>, cfg: &Configuration) -> (r: Result<Request, Iso14229Error>);

    /// A payload never exceeds `isize::MAX` bytes, the most that an
    /// allocation can hold.
    fn try_parse(request: &Request, cfg: &Configuration) -> (r: Result<Self, Iso14229Error>)
        requires
            request.data@.len() <= isize::MAX,
        ensures
            r matches Ok(v) ==> v.valid(),
    ;

    fn to_vec(self, cfg: &Configuration) -> (r: Vec<u8>)
        requires
            self.valid(),
    ;
}

} // verus!
