//! The DNS data model: record types, classes, header fields, question
//! entries, resource records, and whole messages.
//!
//! Type, class, opcode and rcode are closed enumerations with explicit,
//! fallible numeric-to-variant conversions; an unrecognized value is a
//! distinct `None` outcome, never a panic.

use vstd::prelude::*;

verus! {

/// Resource-record types this resolver understands.
#[derive(Clone, Copy, PartialEq, Eq, Structural, Debug)]
pub enum DnsType {
    A,
    NS,
    CNAME,
}

/// The variant denoted by a TYPE / QTYPE value, if recognized.
pub open spec fn spec_dns_type_of(v: u16) -> Option<DnsType> {
    if v == 1 {
        Some(DnsType::A)
    } else if v == 2 {
        Some(DnsType::NS)
    } else if v == 5 {
        Some(DnsType::CNAME)
    } else {
        None
    }
}

impl DnsType {
    /// Converts a wire TYPE value; `None` for an unrecognized value.
    pub fn from_u16(v: u16) -> (r: Option<DnsType>)
        ensures
            r == spec_dns_type_of(v),
    {
        if v == 1 {
            Some(DnsType::A)
        } else if v == 2 {
            Some(DnsType::NS)
        } else if v == 5 {
            Some(DnsType::CNAME)
        } else {
            None
        }
    }
}

/// Resource-record classes this resolver understands.
#[derive(Clone, Copy, PartialEq, Eq, Structural, Debug)]
pub enum DnsClass {
    IN,
}

/// The variant denoted by a CLASS / QCLASS value, if recognized.
pub open spec fn spec_dns_class_of(v: u16) -> Option<DnsClass> {
    if v == 1 {
        Some(DnsClass::IN)
    } else {
        None
    }
}

impl DnsClass {
    /// Converts a wire CLASS value; `None` for an unrecognized value.
    pub fn from_u16(v: u16) -> (r: Option<DnsClass>)
        ensures
            r == spec_dns_class_of(v),
    {
        if v == 1 {
            Some(DnsClass::IN)
        } else {
            None
        }
    }
}

/// Header opcodes this resolver understands.
#[derive(Clone, Copy, PartialEq, Eq, Structural, Debug)]
pub enum DnsHeaderOpecode {
    Query,
    IQuery,
    Status,
}

/// The variant denoted by an opcode nibble, if recognized.
pub open spec fn spec_dns_opecode_of(v: u8) -> Option<DnsHeaderOpecode> {
    if v == 0 {
        Some(DnsHeaderOpecode::Query)
    } else if v == 1 {
        Some(DnsHeaderOpecode::IQuery)
    } else if v == 2 {
        Some(DnsHeaderOpecode::Status)
    } else {
        None
    }
}

impl DnsHeaderOpecode {
    /// Converts an opcode nibble; `None` for an unrecognized value.
    pub fn from_u8(v: u8) -> (r: Option<DnsHeaderOpecode>)
        ensures
            r == spec_dns_opecode_of(v),
    {
        if v == 0 {
            Some(DnsHeaderOpecode::Query)
        } else if v == 1 {
            Some(DnsHeaderOpecode::IQuery)
        } else if v == 2 {
            Some(DnsHeaderOpecode::Status)
        } else {
            None
        }
    }
}

/// Header response codes this resolver understands.
#[derive(Clone, Copy, PartialEq, Eq, Structural, Debug)]
pub enum DnsHeaderRcode {
    NoError,
    FormatError,
    ServerFailure,
    NoNameError,
    NotImplemented,
    Refused,
}

/// The variant denoted by an rcode nibble, if recognized.
pub open spec fn spec_dns_rcode_of(v: u8) -> Option<DnsHeaderRcode> {
    if v == 0 {
        Some(DnsHeaderRcode::NoError)
    } else if v == 1 {
        Some(DnsHeaderRcode::FormatError)
    } else if v == 2 {
        Some(DnsHeaderRcode::ServerFailure)
    } else if v == 3 {
        Some(DnsHeaderRcode::NoNameError)
    } else if v == 4 {
        Some(DnsHeaderRcode::NotImplemented)
    } else if v == 5 {
        Some(DnsHeaderRcode::Refused)
    } else {
        None
    }
}

impl DnsHeaderRcode {
    /// Converts an rcode nibble; `None` for an unrecognized value.
    pub fn from_u8(v: u8) -> (r: Option<DnsHeaderRcode>)
        ensures
            r == spec_dns_rcode_of(v),
    {
        if v == 0 {
            Some(DnsHeaderRcode::NoError)
        } else if v == 1 {
            Some(DnsHeaderRcode::FormatError)
        } else if v == 2 {
            Some(DnsHeaderRcode::ServerFailure)
        } else if v == 3 {
            Some(DnsHeaderRcode::NoNameError)
        } else if v == 4 {
            Some(DnsHeaderRcode::NotImplemented)
        } else if v == 5 {
            Some(DnsHeaderRcode::Refused)
        } else {
            None
        }
    }

    /// A short text for this response code, as a server error report.
    pub fn describe(&self) -> (r: String)
        ensures
            r@ == spec_rcode_text(*self),
    {
        match self {
            DnsHeaderRcode::NoError => String::from_str("NoError"),
            DnsHeaderRcode::FormatError => String::from_str("FormatError"),
            DnsHeaderRcode::ServerFailure => String::from_str("ServerFailure"),
            DnsHeaderRcode::NoNameError => String::from_str("NoNameError"),
            DnsHeaderRcode::NotImplemented => String::from_str("NotImplemented"),
            DnsHeaderRcode::Refused => String::from_str("Refused"),
        }
    }
}

/// The text `DnsHeaderRcode::describe` returns for each code.
pub open spec fn spec_rcode_text(rcode: DnsHeaderRcode) -> Seq<char> {
    match rcode {
        DnsHeaderRcode::NoError => "NoError"@,
        DnsHeaderRcode::FormatError => "FormatError"@,
        DnsHeaderRcode::ServerFailure => "ServerFailure"@,
        DnsHeaderRcode::NoNameError => "NoNameError"@,
        DnsHeaderRcode::NotImplemented => "NotImplemented"@,
        DnsHeaderRcode::Refused => "Refused"@,
    }
}

/// The fixed 12-byte DNS header, decoded.
#[derive(Clone, Copy, PartialEq, Eq, Structural, Debug)]
pub struct DnsHeaderSection {
    pub id: u16,
    pub qr: bool,
    pub opcode: DnsHeaderOpecode,
    pub aa: bool,
    pub tc: bool,
    pub rd: bool,
    pub ra: bool,
    pub rcode: DnsHeaderRcode,
    pub qdcount: u16,
    pub ancount: u16,
    pub nscount: u16,
    pub arcount: u16,
}

/// One entry of the question section.
#[derive(Clone, Debug)]
pub struct DnsQuestionSectionEntry {
    pub q_name: String,
    pub q_type: DnsType,
    pub q_class: DnsClass,
}

/// Mathematical model of a question entry.
pub ghost struct SpecDnsQuestion {
    pub q_name: Seq<char>,
    pub q_type: DnsType,
    pub q_class: DnsClass,
}

impl View for DnsQuestionSectionEntry {
    type V = SpecDnsQuestion;

    open spec fn view(&self) -> SpecDnsQuestion {
        SpecDnsQuestion { q_name: self.q_name@, q_type: self.q_type, q_class: self.q_class }
    }
}

impl DeepView for DnsQuestionSectionEntry {
    type V = SpecDnsQuestion;

    open spec fn deep_view(&self) -> SpecDnsQuestion {
        self.view()
    }
}

/// One resource record, with its rdata already interpreted per type:
/// dotted-quad text for A, a dot-terminated name for NS and CNAME.
#[derive(Clone, Debug)]
pub struct DnsResourceRecord {
    pub name: String,
    pub rr_type: DnsType,
    pub rr_class: DnsClass,
    pub ttl: u32,
    pub rdata: String,
}

/// Mathematical model of a resource record.
pub ghost struct SpecDnsRecord {
    pub name: Seq<char>,
    pub rr_type: DnsType,
    pub rr_class: DnsClass,
    pub ttl: u32,
    pub rdata: Seq<char>,
}

impl View for DnsResourceRecord {
    type V = SpecDnsRecord;

    open spec fn view(&self) -> SpecDnsRecord {
        SpecDnsRecord {
            name: self.name@,
            rr_type: self.rr_type,
            rr_class: self.rr_class,
            ttl: self.ttl,
            rdata: self.rdata@,
        }
    }
}

impl DeepView for DnsResourceRecord {
    type V = SpecDnsRecord;

    open spec fn deep_view(&self) -> SpecDnsRecord {
        self.view()
    }
}

/// A whole DNS message: header and the four sections in wire order.
/// Duplicate names across sections are legal and meaningful (referral
/// plus glue).
#[derive(Clone, Debug)]
pub struct DnsMessage {
    pub header: DnsHeaderSection,
    pub questions: Vec<DnsQuestionSectionEntry>,
    pub answers: Vec<DnsResourceRecord>,
    pub authorities: Vec<DnsResourceRecord>,
    pub additionals: Vec<DnsResourceRecord>,
}

/// Mathematical model of a DNS message.
pub ghost struct SpecDnsMessage {
    pub header: DnsHeaderSection,
    pub questions: Seq<SpecDnsQuestion>,
    pub answers: Seq<SpecDnsRecord>,
    pub authorities: Seq<SpecDnsRecord>,
    pub additionals: Seq<SpecDnsRecord>,
}

impl View for DnsMessage {
    type V = SpecDnsMessage;

    open spec fn view(&self) -> SpecDnsMessage {
        SpecDnsMessage {
            header: self.header,
            questions: self.questions.deep_view(),
            answers: self.answers.deep_view(),
            authorities: self.authorities.deep_view(),
            additionals: self.additionals.deep_view(),
        }
    }
}

} // verus!
