//! DNS answer synthesis: the response code and address records emitted for a
//! blocked, resolved, or failed query.

use vstd::prelude::*;

verus! {

/// The time-to-live, in seconds, of every address record this filter emits.
pub const ANSWER_TTL: u32 = 300;

/// The response code of a synthesized answer: success, or the name-error
/// code used for every resolver failure.
#[derive(Clone, Copy, PartialEq, Eq, Structural, Debug)]
pub enum ResponseCode {
    NoError,
    NxDomain,
}

/// An IPv4 address, one octet per field.
#[derive(Clone, Copy, PartialEq, Eq, Structural, Debug)]
pub struct Ipv4 {
    pub a: u8,
    pub b: u8,
    pub c: u8,
    pub d: u8,
}

/// An address returned by the upstream resolver: IPv4 as four octets, or
/// IPv6 as its 128-bit value.
#[derive(Clone, Copy, PartialEq, Eq, Structural, Debug)]
pub enum ResolvedIp {
    V4(Ipv4),
    V6(u128),
}

/// One address record of an answer: the queried name, a time-to-live, and an
/// IPv4 address.
#[derive(Debug)]
pub struct AnswerRecord {
    pub name: String,
    pub ttl: u32,
    pub addr: Ipv4,
}

/// A synthesized DNS answer: a response code and zero or more address
/// records.
#[derive(Debug)]
pub struct Answer {
    pub code: ResponseCode,
    pub records: Vec<AnswerRecord>,
}

/// The sinkhole address answered for blocked names.
pub open spec fn sinkhole_ip() -> Ipv4 {
    Ipv4 { a: 0, b: 0, c: 0, d: 0 }
}

/// The IPv4 addresses of a resolver result, in order; other address families
/// are omitted.
pub open spec fn v4_list(ips: Seq<ResolvedIp>) -> Seq<Ipv4>
    decreases ips.len(),
{
    if ips.len() == 0 {
        Seq::empty()
    } else {
        let rest = v4_list(ips.drop_last());
        match ips.last() {
            ResolvedIp::V4(p) => rest.push(p),
            ResolvedIp::V6(_) => rest,
        }
    }
}

/// The records carry exactly the given addresses, in order, each under the
/// queried name and with the fixed time-to-live.
pub open spec fn records_match(rs: Seq<AnswerRecord>, qname: Seq<char>, addrs: Seq<Ipv4>) -> bool {
    &&& rs.len() == addrs.len()
    &&& forall|i: int|
        #![trigger rs[i]]
        0 <= i < rs.len() ==> rs[i].name@ == qname && rs[i].ttl == ANSWER_TTL && rs[i].addr
            == addrs[i]
}

/// The answer for a blocked query: success, and exactly one record carrying
/// the queried name, the fixed time-to-live, and the 0.0.0.0 sinkhole
/// address — regardless of what the resolver would have returned.
pub fn sinkhole_answer(qname: &str) -> (a: Answer)
    ensures
        a.code == ResponseCode::NoError,
        a.records@.len() == 1,
        a.records@[0].name@ == qname@,
        a.records@[0].ttl == ANSWER_TTL,
        a.records@[0].addr == sinkhole_ip(),
{
    let mut records: Vec<AnswerRecord> = Vec::new();
    records.push(
        AnswerRecord {
            name: String::from_str(qname),
            ttl: ANSWER_TTL,
            addr: Ipv4 { a: 0, b: 0, c: 0, d: 0 },
        },
    );
    Answer { code: ResponseCode::NoError, records }
}

/// The answer for an allowed query the resolver answered: success, and one
/// record per returned IPv4 address, in the resolver's order; addresses of
/// other families are omitted. An empty address list yields a successful
/// answer with zero records.
pub fn forwarded_answer(qname: &str, ips: &Vec<ResolvedIp>) -> (a: Answer)
    ensures
        a.code == ResponseCode::NoError,
        records_match(a.records@, qname@, v4_list(ips@)),
{
    let mut records: Vec<AnswerRecord> = Vec::new();
    proof {
        assert(ips@.subrange(0, 0) =~= Seq::<ResolvedIp>::empty());
    }
    let mut i: usize = 0;
    while i < ips.len()
        invariant
            0 <= i <= ips@.len(),
            records_match(records@, qname@, v4_list(ips@.subrange(0, i as int))),
        decreases ips@.len() - i,
    {
        let ghost prefix = ips@.subrange(0, i as int);
        let ghost old_records = records@;
        match ips[i] {
            ResolvedIp::V4(p) => {
                records.push(
                    AnswerRecord { name: String::from_str(qname), ttl: ANSWER_TTL, addr: p },
                );
            },
            ResolvedIp::V6(_) => {},
        }
        proof {
            let ext = ips@.subrange(0, i + 1);
            assert(ext.drop_last() =~= prefix);
            assert(ext.last() == ips@[i as int]);
            match ips@[i as int] {
                ResolvedIp::V4(p) => {
                    assert(v4_list(ext) == v4_list(prefix).push(p));
                    assert forall|k: int| 0 <= k < records@.len() implies records@[k].name@
                        == qname@ && records@[k].ttl == ANSWER_TTL && records@[k].addr == v4_list(
                        ext,
                    )[k] by {
                        if k < old_records.len() {
                            assert(records@[k] == old_records[k]);
                            assert(v4_list(ext)[k] == v4_list(prefix)[k]);
                        }
                    }
                },
                ResolvedIp::V6(_) => {
                    assert(v4_list(ext) == v4_list(prefix));
                },
            }
            assert(records_match(records@, qname@, v4_list(ext)));
        }
        i = i + 1;
    }
    proof {
        assert(ips@.subrange(0, ips@.len() as int) =~= ips@);
    }
    Answer { code: ResponseCode::NoError, records }
}

/// The answer for an allowed query whose resolution failed: the name-error
/// code and zero records — never a success code with a default address.
pub fn failure_answer() -> (a: Answer)
    ensures
        a.code == ResponseCode::NxDomain,
        a.records@.len() == 0,
{
    Answer { code: ResponseCode::NxDomain, records: Vec::new() }
}

} // verus!
