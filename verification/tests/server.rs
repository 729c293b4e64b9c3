use hyper::method::Method;
use hyper::uri::RequestUri;
use log::LevelFilter;
use tipt_node::server::{accepts_upgrade, log_levels};

#[test]
fn verbosities() {
    assert_eq!(log_levels(0), Some((LevelFilter::Info, LevelFilter::Info)));
    assert_eq!(log_levels(1), Some((LevelFilter::Debug, LevelFilter::Debug)));
    assert_eq!(log_levels(2), Some((LevelFilter::Trace, LevelFilter::Debug)));
    assert_eq!(log_levels(3), Some((LevelFilter::Trace, LevelFilter::Trace)));
    assert_eq!(log_levels(4), None);
    assert_eq!(log_levels(u64::MAX), None);
}

#[test]
fn upgrades() {
    let path = |path: &str| RequestUri::AbsolutePath(path.to_string());
    assert!(accepts_upgrade(&(Method::Get, path("/ws"))));
    assert!(!accepts_upgrade(&(Method::Get, path("/ws/"))));
    assert!(!accepts_upgrade(&(Method::Get, path("/"))));
    assert!(!accepts_upgrade(&(Method::Post, path("/ws"))));
    assert!(!accepts_upgrade(&(Method::Get, RequestUri::Star)));
}
