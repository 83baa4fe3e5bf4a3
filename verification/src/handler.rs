//! The per-query decision engine: normalize the queried name, consult the
//! blocklist, and turn the outcome — blocked, resolved, or failed — into the
//! answer to emit. The network work around it (receiving the query, calling
//! the upstream resolver, sending the answer) happens outside this crate;
//! this module states what each step decides.

use vstd::prelude::*;

use crate::answer::{
    failure_answer, forwarded_answer, records_match, v4_list, Answer, ResolvedIp, ResponseCode,
};
use crate::blockset::{is_blocked_spec, match_witnessed, BlockMatch, BlockSet, MatchKind};
use crate::normalize::{norm_of, normalize_name};

verus! {

/// What the filter decided for one query: the normalized name, and the
/// blocklist match when the name is blocked.
pub struct QueryDecision {
    pub name: String,
    pub matched: Option<BlockMatch>,
}

/// Normalizes the queried name and consults the blocklist: the decision
/// carries the normalized name, and a match exactly when that name is
/// blocked.
pub fn decide(bs: &BlockSet, raw_name: &str) -> (d: QueryDecision)
    ensures
        d.name@ == norm_of(raw_name@),
        d.matched is Some <==> is_blocked_spec(bs@, norm_of(raw_name@)),
        d.matched matches Some(m) ==> bs@.contains(m.entry@) && match_witnessed(
            m.kind,
            norm_of(raw_name@),
            m.entry@,
        ),
{
    let name = normalize_name(raw_name);
    let matched = bs.find_match(name.as_str());
    QueryDecision { name, matched }
}

/// The outcome of asking the upstream resolver for an allowed name: the
/// returned addresses, or a failure of any kind.
pub enum Resolution {
    Resolved(Vec<ResolvedIp>),
    Failed,
}

/// The answer for an allowed query, from the resolver's outcome: on success,
/// a successful answer with one record per returned IPv4 address (zero
/// records when none were returned); on failure, the name-error code and no
/// records.
pub fn answer_for_resolution(qname: &str, res: &Resolution) -> (a: Answer)
    ensures
        res matches Resolution::Resolved(ips) ==> a.code == ResponseCode::NoError
            && records_match(a.records@, qname@, v4_list(ips@)),
        res is Failed ==> a.code == ResponseCode::NxDomain && a.records@.len() == 0,
{
    match res {
        Resolution::Resolved(ips) => forwarded_answer(qname, ips),
        Resolution::Failed => failure_answer(),
    }
}

/// The label under which a match reason is reported.
pub open spec fn match_label(kind: MatchKind) -> Seq<char> {
    match kind {
        MatchKind::Exact => "exact match with "@,
        MatchKind::Subdomain => "subdomain of "@,
        MatchKind::Superdomain => "superdomain of "@,
    }
}

impl BlockMatch {
    /// One human-readable line for the observability stream: the match
    /// reason followed by the matched entry.
    pub fn describe(&self) -> (r: String)
        ensures
            r@ == match_label(self.kind) + self.entry@,
    {
        let label = match self.kind {
            MatchKind::Exact => String::from_str("exact match with "),
            MatchKind::Subdomain => String::from_str("subdomain of "),
            MatchKind::Superdomain => String::from_str("superdomain of "),
        };
        label.concat(self.entry.as_str())
    }
}

} // verus!
