//! The forwarding decisions of the proxy: the headers it adds, the target
//! path, and what an upstream answer says of the backend's health.

use vstd::prelude::*;
use vstd::string::StringExecFns;
use crate::loadbalancer::{Backend, UpstreamGroup, first_in_rotation};
use crate::health::{success_step, failure_step};

verus! {

/// The `X-Forwarded-For` value to send: the client's address alone when the
/// request had no such header, appended after `, ` to a textual one, and no
/// change (`None`) when the header was there but not text.
pub open spec fn forwarded_for_spec(present: bool, existing: Option<Seq<char>>, ip: Seq<char>) -> Option<Seq<char>> {
    if !present {
        Some(ip)
    } else {
        match existing {
            Some(e) => Some(e + ", "@ + ip),
            None => None,
        }
    }
}

/// The `X-Forwarded-For` value to send, as `forwarded_for_spec` says:
/// `present` tells whether the request had the header, `existing` its value
/// when it is text.
pub fn forwarded_for(present: bool, existing: Option<&str>, client_ip: &str) -> (r: Option<String>)
    ensures
        match forwarded_for_spec(
            present,
            match existing {
                Some(e) => Some(e@),
                None => None,
            },
            client_ip@,
        ) {
            Some(v) => r matches Some(s) && s@ == v,
            None => r is None,
        },
{
    proof {
        reveal_strlit(", ");
    }
    if !present {
        return Some(String::from_str(client_ip));
    }
    match existing {
        Some(e) => Some(String::from_str(e).concat(", ").concat(client_ip)),
        None => None,
    }
}

/// The path and query sent upstream for a rewritten path: the query, when
/// the request had one, follows a `?`.
pub open spec fn upstream_target_spec(rewritten: Seq<char>, query: Option<Seq<char>>) -> Seq<char> {
    match query {
        Some(q) => rewritten + "?"@ + q,
        None => rewritten,
    }
}

/// The path and query sent upstream, as `upstream_target_spec` says.
pub fn upstream_target(rewritten: &str, query: Option<&str>) -> (t: String)
    ensures
        t@ == upstream_target_spec(
            rewritten@,
            match query {
                Some(q) => Some(q@),
                None => None,
            },
        ),
{
    proof {
        reveal_strlit("?");
    }
    match query {
        Some(q) => String::from_str(rewritten).concat("?").concat(q),
        None => String::from_str(rewritten),
    }
}

/// Whether an upstream answer counts against the backend: no answer at all
/// (`None`, the connection failed), or a server error (5xx).
pub open spec fn is_backend_failure(status: Option<u16>) -> bool {
    match status {
        Some(s) => 500 <= s <= 599,
        None => true,
    }
}

/// Whether an upstream answer counts against the backend, as
/// `is_backend_failure` says.
pub fn backend_failed(status: Option<u16>) -> (b: bool)
    ensures
        b == is_backend_failure(status),
{
    match status {
        Some(s) => 500 <= s && s <= 599,
        None => true,
    }
}

/// Backend `i` of `new_bs` is backend `i` of `old_bs` with one more request
/// in flight (wrapping), and every other backend is unchanged.
pub open spec fn request_started(old_bs: Seq<Backend>, new_bs: Seq<Backend>, i: int) -> bool {
    &&& new_bs.len() == old_bs.len()
    &&& forall|j: int| 0 <= j < old_bs.len() && j != i ==> new_bs[j] == old_bs[j]
    &&& new_bs[i].url == old_bs[i].url
    &&& new_bs[i].weight == old_bs[i].weight
    &&& new_bs[i].health == old_bs[i].health
    &&& new_bs[i].active_connections == (if old_bs[i].active_connections == usize::MAX {
        0
    } else {
        (old_bs[i].active_connections + 1) as usize
    })
}

/// Where a routed request goes.
#[derive(Debug)]
pub enum Dispatch {
    /// No backend of the group is in rotation: the answer is 503.
    NoBackend,
    /// To backend `backend` of the group, at `url`; `target` is the path and
    /// query to send when the route rewrote the path.
    Forward { backend: usize, url: String, target: Option<String> },
}

impl UpstreamGroup {
    /// Picks the backend for a routed request, as `next_index` does, marks a
    /// request in flight on it, as `begin_request` does, and says where the
    /// request goes: the backend's URL and, for a rewritten path, the target
    /// that `upstream_target` builds from it and the request's query.
    pub fn dispatch(&mut self, rewritten: Option<&str>, query: Option<&str>) -> (d: Dispatch)
        ensures
            final(self).name == old(self).name,
            final(self).current_idx == (if old(self).backends@.len() == 0 {
                old(self).current_idx
            } else if old(self).current_idx == usize::MAX {
                0
            } else {
                (old(self).current_idx + 1) as usize
            }),
            match first_in_rotation(
                old(self).backends@,
                old(self).current_idx as int,
                old(self).backends@.len(),
            ) {
                None => d is NoBackend && final(self).backends == old(self).backends,
                Some(i) => {
                    &&& d matches Dispatch::Forward { backend, url, target }
                    &&& backend == i
                    &&& url@ == old(self).backends@[i].url@
                    &&& request_started(old(self).backends@, final(self).backends@, i)
                    &&& match rewritten {
                        None => target is None,
                        Some(r) => target matches Some(t) && t@ == upstream_target_spec(
                            r@,
                            match query {
                                Some(q) => Some(q@),
                                None => None,
                            },
                        ),
                    }
                },
            },
    {
        match self.next_index() {
            None => Dispatch::NoBackend,
            Some(i) => {
                let url = self.backends[i].url.clone();
                self.begin_request(i);
                let target = match rewritten {
                    Some(r) => Some(upstream_target(r, query)),
                    None => None,
                };
                Dispatch::Forward { backend: i, url, target }
            },
        }
    }

    /// A request to backend `i` starts: its count of requests in flight goes
    /// up by one (wrapping).
    pub fn begin_request(&mut self, i: usize)
        requires
            i < old(self).backends@.len(),
        ensures
            final(self).name == old(self).name,
            final(self).current_idx == old(self).current_idx,
            request_started(old(self).backends@, final(self).backends@, i as int),
    {
        let mut b = self.backends.remove(i);
        b.active_connections = b.active_connections.wrapping_add(1);
        self.backends.insert(i, b);
        proof {
            assert(forall|j: int| 0 <= j < old(self).backends@.len() && j != i ==> self.backends@[j] == old(self).backends@[j]);
        }
    }

    /// A request to backend `i` ends: its count of requests in flight goes
    /// down by one (wrapping), and its health records a failure when the
    /// answer counts against it, else a success.
    pub fn end_request(&mut self, i: usize, failed: bool)
        requires
            i < old(self).backends@.len(),
        ensures
            final(self).name == old(self).name,
            final(self).current_idx == old(self).current_idx,
            final(self).backends@.len() == old(self).backends@.len(),
            forall|j: int| 0 <= j < old(self).backends@.len() && j != i ==> final(self).backends@[j] == old(self).backends@[j],
            final(self).backends@[i as int].url == old(self).backends@[i as int].url,
            final(self).backends@[i as int].weight == old(self).backends@[i as int].weight,
            final(self).backends@[i as int].active_connections == (if old(self).backends@[i as int].active_connections == 0 {
                usize::MAX
            } else {
                (old(self).backends@[i as int].active_connections - 1) as usize
            }),
            final(self).backends@[i as int].health.config_spec() == old(self).backends@[i as int].health.config_spec(),
            final(self).backends@[i as int].health@ == (if failed {
                failure_step(
                    old(self).backends@[i as int].health@,
                    old(self).backends@[i as int].health.config_spec().unhealthy_threshold,
                )
            } else {
                success_step(
                    old(self).backends@[i as int].health@,
                    old(self).backends@[i as int].health.config_spec().healthy_threshold,
                )
            }),
    {
        let mut b = self.backends.remove(i);
        b.active_connections = b.active_connections.wrapping_sub(1);
        if failed {
            b.health.record_failure();
        } else {
            b.health.record_success();
        }
        self.backends.insert(i, b);
        proof {
            assert(forall|j: int| 0 <= j < old(self).backends@.len() && j != i ==> self.backends@[j] == old(self).backends@[j]);
        }
    }
}

} // verus!
