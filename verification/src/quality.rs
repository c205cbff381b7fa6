//! Reading IPPure risk data out of a decoded JSON document.

use vstd::prelude::*;

use crate::domain::{parse_ipv4, IpPureResult, Ipv4Addr};
use crate::text::{eq_str, str_chars};

verus! {

/// A member value of a JSON object, as far as the IPPure reader looks at it.
/// A number carries the bits of its `f64` value and whether that value is
/// finite and within 0 to 100 (a floating-point check made by the decoder).
#[derive(Clone, Debug)]
pub enum JsonScalar {
    Bool(bool),
    Number { bits: u64, in_range: bool },
    Text(String),
    /// `null`, an array or an object.
    Other,
}

/// The members of a decoded IPPure response: those of the root object and,
/// when the root has a `data` member that is an object, those of `data`.
/// Each member name occurs once, as in a decoded JSON object.
pub struct IpPureDocument {
    pub root: Vec<(String, JsonScalar)>,
    pub data: Option<Vec<(String, JsonScalar)>>,
}

/// The value of the member `name`, if the object has one.
pub open spec fn member(entries: Seq<(String, JsonScalar)>, name: Seq<char>) -> Option<JsonScalar>
    decreases entries.len(),
{
    if entries.len() == 0 {
        None
    } else if entries[0].0@ == name {
        Some(entries[0].1)
    } else {
        member(entries.drop_first(), name)
    }
}

/// The first of the alternative names that the object has.
pub open spec fn either(entries: Seq<(String, JsonScalar)>, names: Seq<Seq<char>>) -> Option<JsonScalar>
    decreases names.len(),
{
    if names.len() == 0 {
        None
    } else {
        match member(entries, names[0]) {
            Some(v) => Some(v),
            None => either(entries, names.drop_first()),
        }
    }
}

/// The object the risk fields are read from: `data` when it is an object,
/// otherwise the root.
pub open spec fn risk_object(doc: IpPureDocument) -> Seq<(String, JsonScalar)> {
    match doc.data {
        Some(d) => d@,
        None => doc.root@,
    }
}

pub open spec fn score_names() -> Seq<Seq<char>> {
    seq!["fraudScore"@, "fraud_score"@]
}

pub open spec fn residential_names() -> Seq<Seq<char>> {
    seq!["isResidential"@, "is_residential"@]
}

pub open spec fn broadcast_names() -> Seq<Seq<char>> {
    seq!["isBroadcast"@, "is_broadcast"@]
}

pub open spec fn ip_names() -> Seq<Seq<char>> {
    seq!["ip"@, "query"@, "address"@]
}

/// The exit address: absent when no address member holds text; an error
/// (`None`) when the text is no IPv4 address.
pub open spec fn exit_ip_of(v: Option<JsonScalar>) -> Option<Option<Ipv4Addr>> {
    match v {
        Some(JsonScalar::Text(s)) => match parse_ipv4(s@) {
            Some(ip) => Some(Some(ip)),
            None => None,
        },
        _ => Some(None),
    }
}

/// The risk data of a document, or the name of the first field that is
/// missing or invalid.
pub open spec fn ippure_reading(doc: IpPureDocument) -> Result<IpPureResult, Seq<char>> {
    let o = risk_object(doc);
    match either(o, score_names()) {
        Some(JsonScalar::Number { bits, in_range }) if in_range => match either(o, residential_names()) {
            Some(JsonScalar::Bool(is_residential)) => match either(o, broadcast_names()) {
                Some(JsonScalar::Bool(is_broadcast)) => match exit_ip_of(either(o, ip_names())) {
                    Some(exit_ip) => Ok(IpPureResult { fraud_score_bits: bits, is_residential, is_broadcast, exit_ip }),
                    None => Err("ip"@),
                },
                _ => Err("isBroadcast"@),
            },
            _ => Err("isResidential"@),
        },
        _ => Err("fraudScore"@),
    }
}

fn member_of(entries: &[(String, JsonScalar)], name: &str) -> (r: Option<JsonScalar>)
    ensures
        r == member(entries@, name@),
{
    let mut i: usize = 0;
    assert(entries@.subrange(0, entries@.len() as int) =~= entries@);
    while i < entries.len()
        invariant
            i <= entries@.len(),
            member(entries@, name@) == member(entries@.subrange(i as int, entries@.len() as int), name@),
        decreases entries.len() - i,
    {
        let ghost rest = entries@.subrange(i as int, entries@.len() as int);
        assert(rest[0] == entries@[i as int]);
        let key = str_chars(entries[i].0.as_str());
        if eq_str(key.as_slice(), name) {
            return Some(entries[i].1.clone_scalar());
        }
        assert(rest.drop_first() =~= entries@.subrange(i + 1, entries@.len() as int));
        i = i + 1;
    }
    assert(entries@.subrange(i as int, entries@.len() as int) =~= Seq::<(String, JsonScalar)>::empty());
    None
}

impl JsonScalar {
    /// A copy of the value.
    pub fn clone_scalar(&self) -> (r: JsonScalar)
        ensures
            r == *self,
    {
        match self {
            JsonScalar::Bool(b) => JsonScalar::Bool(*b),
            JsonScalar::Number { bits, in_range } => JsonScalar::Number { bits: *bits, in_range: *in_range },
            JsonScalar::Text(s) => JsonScalar::Text(s.clone()),
            JsonScalar::Other => JsonScalar::Other,
        }
    }
}

fn either2(entries: &[(String, JsonScalar)], a: &str, b: &str) -> (r: Option<JsonScalar>)
    ensures
        r == either(entries@, seq![a@, b@]),
{
    let first = member_of(entries, a);
    proof {
        reveal_with_fuel(either, 3);
        assert(seq![a@, b@][0] == a@);
        assert(seq![b@][0] == b@);
        assert(seq![a@, b@].drop_first() =~= seq![b@]);
        assert(seq![b@].drop_first() =~= Seq::<Seq<char>>::empty());
    }
    match first {
        Some(v) => Some(v),
        None => member_of(entries, b),
    }
}

fn either3(entries: &[(String, JsonScalar)], a: &str, b: &str, c: &str) -> (r: Option<JsonScalar>)
    ensures
        r == either(entries@, seq![a@, b@, c@]),
{
    let first = member_of(entries, a);
    proof {
        reveal_with_fuel(either, 4);
        assert(seq![a@, b@, c@][0] == a@);
        assert(seq![b@, c@][0] == b@);
        assert(seq![c@][0] == c@);
        assert(seq![a@, b@, c@].drop_first() =~= seq![b@, c@]);
        assert(seq![b@, c@].drop_first() =~= seq![c@]);
        assert(seq![c@].drop_first() =~= Seq::<Seq<char>>::empty());
    }
    match first {
        Some(v) => Some(v),
        None => match member_of(entries, b) {
            Some(v) => Some(v),
            None => member_of(entries, c),
        },
    }
}

/// Extracts the required risk fields from the `data` object, or from the root
/// when there is none; each field has its documented and its snake-case name.
/// An error names the first field that is missing or invalid.
pub fn parse_ippure_document(doc: &IpPureDocument) -> (r: Result<IpPureResult, &'static str>)
    ensures
        match ippure_reading(*doc) {
            Ok(v) => r == Ok::<IpPureResult, &'static str>(v),
            Err(name) => r matches Err(e) && e@ == name,
        },
{
    proof {
        reveal_strlit("fraudScore");
        reveal_strlit("isResidential");
        reveal_strlit("isBroadcast");
        reveal_strlit("ip");
    }
    let o: &[(String, JsonScalar)] = match &doc.data {
        Some(d) => d.as_slice(),
        None => doc.root.as_slice(),
    };
    assert(o@ == risk_object(*doc));
    let score = either2(o, "fraudScore", "fraud_score");
    let bits = match score {
        Some(JsonScalar::Number { bits, in_range }) => {
            if !in_range {
                return Err("fraudScore");
            }
            bits
        },
        _ => {
            return Err("fraudScore");
        },
    };
    let is_residential = match either2(o, "isResidential", "is_residential") {
        Some(JsonScalar::Bool(b)) => b,
        _ => {
            return Err("isResidential");
        },
    };
    let is_broadcast = match either2(o, "isBroadcast", "is_broadcast") {
        Some(JsonScalar::Bool(b)) => b,
        _ => {
            return Err("isBroadcast");
        },
    };
    let exit_ip = match either3(o, "ip", "query", "address") {
        Some(JsonScalar::Text(s)) => match Ipv4Addr::parse(s.as_str()) {
            Some(ip) => Some(ip),
            None => {
                return Err("ip");
            },
        },
        _ => None,
    };
    Ok(IpPureResult { fraud_score_bits: bits, is_residential, is_broadcast, exit_ip })
}

} // verus!
