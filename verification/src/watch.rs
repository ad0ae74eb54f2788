//! Event subscriptions: a slave watches a master-produced event kind.
use vstd::prelude::*;
use crate::text::{starts_with, str_eq};

verus! {

/// A partial match on an event's `path`: `path` requires that exact path,
/// `path_prefix` requires the prefix; an empty filter matches every event.
#[derive(Debug)]
pub struct WatchFilter {
    pub path: Option<String>,
    pub path_prefix: Option<String>,
}

/// A watch held by the master. `expires_at` is 0 for a watch without ttl.
#[derive(Debug)]
pub struct Watch {
    pub watch_id: String,
    pub watcher_sid: String,
    pub kind: String,
    pub filter: WatchFilter,
    pub ttl: u64,
    pub created_at: u64,
    pub expires_at: u64,
}

/// Does an event whose path is `event_path` pass `filter`?
pub open spec fn filter_matches(filter: WatchFilter, event_path: Option<Seq<char>>) -> bool {
    &&& (filter.path matches Some(p) ==> event_path == Some(p@))
    &&& (filter.path_prefix matches Some(pre) ==> pre@.is_prefix_of(
        match event_path {
            Some(e) => e,
            None => Seq::<char>::empty(),
        },
    ))
}

/// Partial-match a watch filter against an event's path. `{"path": "/x"}`
/// requires the exact path; `{"path_prefix": "/x"}` requires the prefix;
/// an empty filter matches every event of the watch's kind.
pub fn watch_matches(filter: &WatchFilter, event_path: Option<&str>) -> (r: bool)
    ensures
        r == filter_matches(
            *filter,
            match event_path {
                Some(e) => Some(e@),
                None => None,
            },
        ),
{
    match &filter.path {
        Some(p) => {
            match event_path {
                Some(e) => {
                    if !str_eq(e, p.as_str()) {
                        return false;
                    }
                },
                None => {
                    return false;
                },
            }
        },
        None => {},
    }
    match &filter.path_prefix {
        Some(pre) => {
            let e = match event_path {
                Some(e) => e,
                None => "",
            };
            proof {
                reveal_strlit("");
            }
            starts_with(e, pre.as_str())
        },
        None => true,
    }
}

} // verus!
