//! Public-IP discovery: the description of the special-purpose resolver
//! query, and the decoding of its answer into an address.
//!
//! The query itself — a CHAOS-class TXT lookup of `whoami.cloudflare`
//! against a fixed resolver — travels over UDP and is performed by the
//! driver; the answers come back here as plain values and every
//! decision about them is verified.

use vstd::prelude::*;
use vstd::string::*;
use vstd::utf8::valid_utf8;
use crate::addr::{
    IpAddress, Ipv4Address, Ipv6Address, parse_ipv4, parse_ipv6, parse_ipv4_spec, parse_ipv6_spec,
    ipv4_text, ipv6_text_of, address_text,
};

verus! {

/// An address family a record type asks for.
#[derive(Clone, Copy, Debug, PartialEq, Eq, Structural)]
pub enum RecordFamily {
    V4,
    V6,
}

/// One answer of the discovery query, reduced to plain values: whether
/// it is a TXT record, and its text segments as raw bytes.
pub struct TxtAnswer {
    pub is_txt: bool,
    pub segments: Vec<Vec<u8>>,
}

/// The distinct ways discovery fails once a response has arrived.
#[derive(Clone, Copy, Debug, PartialEq, Eq, Structural)]
pub enum DiscoveryError {
    /// The response carried no answers.
    NoAnswers,
    /// The first answer was not a TXT record.
    InvalidRecordType,
    /// The TXT answer carried no text segment.
    NoRecordData,
    /// The text segment was not valid UTF-8.
    InvalidRecordData,
    /// The text did not parse as an address of the requested family.
    ParseFailure,
}

impl DiscoveryError {
    /// Renders the failure for reporting.
    pub fn describe(&self) -> (r: String)
        ensures
            r@ == discovery_error_text(*self),
    {
        proof {
            reveal_strlit("No answers");
            reveal_strlit("Invalid record type");
            reveal_strlit("No record data");
            reveal_strlit("Invalid record data");
            reveal_strlit("Failed to parse record data");
        }
        match self {
            DiscoveryError::NoAnswers => String::from_str("No answers"),
            DiscoveryError::InvalidRecordType => String::from_str("Invalid record type"),
            DiscoveryError::NoRecordData => String::from_str("No record data"),
            DiscoveryError::InvalidRecordData => String::from_str("Invalid record data"),
            DiscoveryError::ParseFailure => String::from_str("Failed to parse record data"),
        }
    }
}

/// The message text of each discovery failure.
pub open spec fn discovery_error_text(e: DiscoveryError) -> Seq<char> {
    match e {
        DiscoveryError::NoAnswers => ("No answers")@,
        DiscoveryError::InvalidRecordType => ("Invalid record type")@,
        DiscoveryError::NoRecordData => ("No record data")@,
        DiscoveryError::InvalidRecordData => ("Invalid record data")@,
        DiscoveryError::ParseFailure => ("Failed to parse record data")@,
    }
}

/// What decoding a discovery response yields: the canonical text of the
/// discovered address, or the first applicable failure. The checks run
/// in order: an answer must exist, be a TXT record, carry a text
/// segment, which must be valid UTF-8 and parse in the requested
/// family.
pub open spec fn discovery_outcome(family: RecordFamily, answers: Seq<TxtAnswer>) -> Result<
    Seq<char>,
    DiscoveryError,
> {
    if answers.len() == 0 {
        Err(DiscoveryError::NoAnswers)
    } else if !answers[0].is_txt {
        Err(DiscoveryError::InvalidRecordType)
    } else if answers[0].segments@.len() == 0 {
        Err(DiscoveryError::NoRecordData)
    } else {
        let data = answers[0].segments@[0]@;
        if !valid_utf8(data) {
            Err(DiscoveryError::InvalidRecordData)
        } else {
            match family {
                RecordFamily::V4 => match parse_ipv4_spec(data) {
                    Some(a) => Ok(ipv4_text(a)),
                    None => Err(DiscoveryError::ParseFailure),
                },
                RecordFamily::V6 => match parse_ipv6_spec(data) {
                    Some(g) => Ok(ipv6_text_of(g)),
                    None => Err(DiscoveryError::ParseFailure),
                },
            }
        }
    }
}

/// Relies on `core::str::from_utf8`: it accepts a byte slice exactly
/// when the slice is valid UTF-8.
#[verifier::external_body]
fn utf8_ok(b: &[u8]) -> (r: bool)
    ensures
        r == valid_utf8(b@),
{
    core::str::from_utf8(b).is_ok()
}

/// Decodes a discovery response into the discovered address. Succeeds
/// exactly when `discovery_outcome` does, and the returned address
/// renders to the text that `discovery_outcome` gives.
pub fn discover_address(family: RecordFamily, answers: &Vec<TxtAnswer>) -> (r: Result<
    IpAddress,
    DiscoveryError,
>)
    ensures
        r is Ok <==> discovery_outcome(family, answers@) is Ok,
        r is Ok ==> r->Ok_0.wf() && address_text(r->Ok_0) == discovery_outcome(
            family,
            answers@,
        )->Ok_0,
        r is Err ==> Err::<Seq<char>, DiscoveryError>(r->Err_0) == discovery_outcome(
            family,
            answers@,
        ),
{
    if answers.len() == 0 {
        return Err(DiscoveryError::NoAnswers);
    }
    let first = &answers[0];
    if !first.is_txt {
        return Err(DiscoveryError::InvalidRecordType);
    }
    if first.segments.len() == 0 {
        return Err(DiscoveryError::NoRecordData);
    }
    let data: &Vec<u8> = &first.segments[0];
    if !utf8_ok(data.as_slice()) {
        return Err(DiscoveryError::InvalidRecordData);
    }
    match family {
        RecordFamily::V4 => match parse_ipv4(data.as_slice()) {
            Some(a) => Ok(IpAddress::V4(a)),
            None => Err(DiscoveryError::ParseFailure),
        },
        RecordFamily::V6 => match parse_ipv6(data.as_slice()) {
            Some(a) => Ok(IpAddress::V6(a)),
            None => Err(DiscoveryError::ParseFailure),
        },
    }
}

/// The class of a DNS query.
#[derive(Clone, Copy, Debug, PartialEq, Eq, Structural)]
pub enum QueryClass {
    /// The ordinary Internet class.
    Internet,
    /// The CHAOS class, which resolvers answer with diagnostic data.
    Chaos,
}

/// The record type a DNS query asks for.
#[derive(Clone, Copy, Debug, PartialEq, Eq, Structural)]
pub enum QueryType {
    /// A text record.
    Txt,
}

/// The discovery query, described as plain values for a driver to
/// send: the resolver to ask, the port, the name to look up, and the
/// class and record type of the lookup.
pub struct DiscoveryQuery {
    pub server: IpAddress,
    pub port: u16,
    pub qname: String,
    pub qclass: QueryClass,
    pub qtype: QueryType,
}

/// The fixed well-known resolver for each address family.
pub fn name_server(family: RecordFamily) -> (r: IpAddress)
    ensures
        family == RecordFamily::V4 ==> r == IpAddress::V4(
            Ipv4Address { o0: 1, o1: 1, o2: 1, o3: 1 },
        ),
        family == RecordFamily::V6 ==> (r matches IpAddress::V6(a) && a.groups@ =~= seq![
            0x2606u16,
            0x4700u16,
            0x4700u16,
            0u16,
            0u16,
            0u16,
            0u16,
            0x1111u16,
        ]),
{
    match family {
        RecordFamily::V4 => IpAddress::V4(Ipv4Address { o0: 1, o1: 1, o2: 1, o3: 1 }),
        RecordFamily::V6 => {
            let mut groups: Vec<u16> = Vec::new();
            groups.push(0x2606);
            groups.push(0x4700);
            groups.push(0x4700);
            groups.push(0);
            groups.push(0);
            groups.push(0);
            groups.push(0);
            groups.push(0x1111);
            IpAddress::V6(Ipv6Address { groups })
        },
    }
}

/// The discovery query for one address family: a CHAOS-class TXT
/// lookup of the reserved name `whoami.cloudflare` at the well-known
/// resolver of that family, on the standard DNS port.
pub fn discovery_query(family: RecordFamily) -> (q: DiscoveryQuery)
    ensures
        q.qclass == QueryClass::Chaos,
        q.qtype == QueryType::Txt,
        q.server == (if family == RecordFamily::V4 {
            IpAddress::V4(Ipv4Address { o0: 1, o1: 1, o2: 1, o3: 1 })
        } else {
            q.server
        }),
        family == RecordFamily::V6 ==> (q.server matches IpAddress::V6(a) && a.groups@ =~= seq![
            0x2606u16,
            0x4700u16,
            0x4700u16,
            0u16,
            0u16,
            0u16,
            0u16,
            0x1111u16,
        ]),
        q.port == 53,
        q.qname@ == ("whoami.cloudflare")@,
{
    proof {
        reveal_strlit("whoami.cloudflare");
    }
    DiscoveryQuery {
        server: name_server(family),
        port: 53,
        qname: String::from_str("whoami.cloudflare"),
        qclass: QueryClass::Chaos,
        qtype: QueryType::Txt,
    }
}

} // verus!
