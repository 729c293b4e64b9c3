//! What the server decides at its start and for each connection.
use hyper::method::Method;
use hyper::uri::RequestUri;
use log::LevelFilter;
use vstd::prelude::*;

verus! {

/// The level filters of `log`, whose variants verified code tells apart.
#[verifier::external_type_specification]
pub struct ExLevelFilter(log::LevelFilter);

/// The log levels at a verbosity: that of the node, and that of the libraries which would flood
/// the log otherwise. There are four verbosities.
pub open spec fn levels_at(verbosity: nat) -> Option<(LevelFilter, LevelFilter)> {
    if verbosity == 0 {
        Some((LevelFilter::Info, LevelFilter::Info))
    } else if verbosity == 1 {
        Some((LevelFilter::Debug, LevelFilter::Debug))
    } else if verbosity == 2 {
        Some((LevelFilter::Trace, LevelFilter::Debug))
    } else if verbosity == 3 {
        Some((LevelFilter::Trace, LevelFilter::Trace))
    } else {
        None
    }
}

/// The log levels at a verbosity, that is the number of times that verbosity was asked for;
/// `None` where there is no such verbosity.
pub fn log_levels(verbosity: u64) -> (r: Option<(LevelFilter, LevelFilter)>)
    ensures
        r == levels_at(verbosity as nat),
        (r is Some) == (verbosity <= 3),
{
    match verbosity {
        0 => Some((LevelFilter::Info, LevelFilter::Info)),
        1 => Some((LevelFilter::Debug, LevelFilter::Debug)),
        2 => Some((LevelFilter::Trace, LevelFilter::Debug)),
        3 => Some((LevelFilter::Trace, LevelFilter::Trace)),
        _ => None,
    }
}

/// The absolute path that a request is for.
pub open spec fn path_of(uri: RequestUri) -> Option<Seq<char>> {
    match uri {
        RequestUri::AbsolutePath(path) => Some(path@),
        _ => None,
    }
}

/// Whether a request to upgrade to a websocket is accepted: those for `/ws` are.
pub open spec fn is_websocket_request(subject: (Method, RequestUri)) -> bool {
    subject matches (Method::Get, RequestUri::AbsolutePath(path)) && path@ == "/ws"@
}

/// Decides whether a request to upgrade to a websocket is accepted.
pub fn accepts_upgrade(subject: &(Method, RequestUri)) -> (r: bool)
    ensures
        r == is_websocket_request(*subject),
        r ==> subject.0 is Get && path_of(subject.1) == Some("/ws"@),
        subject.0 is Get && path_of(subject.1) == Some("/ws"@) ==> r,
{
    match subject {
        (Method::Get, RequestUri::AbsolutePath(path)) => *path == "/ws".to_owned(),
        _ => false,
    }
}

/// Upgrades are accepted for one method and one path alone: if two requests are accepted, both are
/// a `GET` for the absolute path `/ws`, and every such request is accepted.
pub proof fn law_one_way_to_upgrade(
    subject: (Method, RequestUri),
    other: (Method, RequestUri),
    path: String,
)
    ensures
        is_websocket_request(subject) && is_websocket_request(other) ==> {
            &&& subject.0 is Get && other.0 is Get
            &&& path_of(subject.1) == Some("/ws"@) && path_of(other.1) == Some("/ws"@)
        },
        is_websocket_request((Method::Get, RequestUri::AbsolutePath(path))) <==> path@ == "/ws"@,
        path_of(RequestUri::AbsolutePath(path)) == Some(path@),
        !(subject.1 is AbsolutePath) ==> path_of(subject.1) is None,
{
}

/// There are exactly four verbosities. A higher one logs no less, of the node and of the libraries,
/// and of the node at least as much as of the libraries.
pub proof fn law_verbosity(verbosity: nat, higher: nat)
    ensures
        levels_at(verbosity) is Some <==> verbosity < 4,
        verbosity < higher < 4 ==> {
            &&& rank(levels_at(verbosity).unwrap().0) <= rank(levels_at(higher).unwrap().0)
            &&& rank(levels_at(verbosity).unwrap().1) <= rank(levels_at(higher).unwrap().1)
        },
        verbosity < 4 ==> {
            &&& rank(levels_at(verbosity).unwrap().1) <= rank(levels_at(verbosity).unwrap().0)
            &&& rank(levels_at(verbosity).unwrap().1) >= 3
        },
{
}

/// How much a level filter lets through.
pub open spec fn rank(level: LevelFilter) -> int {
    match level {
        LevelFilter::Off => 0,
        LevelFilter::Error => 1,
        LevelFilter::Warn => 2,
        LevelFilter::Info => 3,
        LevelFilter::Debug => 4,
        LevelFilter::Trace => 5,
    }
}

} // verus!
