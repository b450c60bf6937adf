//! Entries of the list, from the files they stand for.
use vstd::prelude::*;
use vstd::string::*;

use crate::request::{profile_views, text_opt, ChainConfig, ProfileView, RequestConfig};
use crate::text::texts;
use crate::tree::{Entry, EntryKind};

verus! {

/// An entry for a request: what the list shows of it, and what asks for variables.
pub open spec fn stands_for_request(e: Entry, name: Seq<char>, global: bool, config: RequestConfig) -> bool {
    &&& e.name@ == name
    &&& e.global == global
    &&& match e.kind {
        EntryKind::Request { method, url, description, headers, query, body_data, profiles } => {
            &&& method@ == config.method@
            &&& url@ == config.url@
            &&& text_opt(description) == text_opt(config.description)
            &&& headers.rows() == config.headers.rows()
            &&& headers@ == config.headers@
            &&& query.rows() == config.query.rows()
            &&& query@ == config.query@
            &&& text_opt(body_data) == match config.body {
                Some(b) => Some(b.data@),
                None => None,
            }
            &&& profile_views(profiles@) == match config.profiles {
                Some(v) => profile_views(v@),
                None => Seq::<ProfileView>::empty(),
            }
        },
        EntryKind::Chain { .. } => false,
    }
}

/// The entry for a request.
pub fn request_entry(name: String, global: bool, config: RequestConfig) -> (r: Entry)
    ensures
        stands_for_request(r, name@, global, config),
{
    let body_data = match config.body {
        Some(b) => Some(b.data),
        None => None,
    };
    let profiles = match config.profiles {
        Some(v) => v,
        None => {
            let none: Vec<crate::request::Profile> = Vec::new();
            proof {
                assert(profile_views(none@) =~= Seq::<ProfileView>::empty());
            }
            none
        },
    };
    let kind = EntryKind::Request {
        method: config.method,
        url: config.url,
        description: config.description,
        headers: config.headers,
        query: config.query,
        body_data,
        profiles,
    };
    Entry { name, global, kind }
}

/// The names of steps.
pub open spec fn names_of_steps(steps: Seq<RequestConfig>) -> Seq<Seq<char>> {
    steps.map_values(|s: RequestConfig| s.name@)
}

/// The entry for a chain. One that could not be read has no steps.
pub fn chain_entry(name: String, global: bool, chain: Option<&ChainConfig>) -> (r: Entry)
    ensures
        r.name@ == name@,
        r.global == global,
        r.kind matches EntryKind::Chain { steps } && texts(steps@) == match chain {
            Some(c) => names_of_steps(c.steps@),
            None => Seq::empty(),
        },
{
    let mut steps: Vec<String> = Vec::new();
    proof {
        assert(texts(steps@) =~= Seq::empty());
    }
    match chain {
        Some(c) => {
            let ghost goal = names_of_steps(c.steps@);
            let mut i: usize = 0;
            proof {
                assert(texts(steps@) =~= goal.take(0));
            }
            while i < c.steps.len()
                invariant
                    i <= c.steps.len(),
                    goal == names_of_steps(c.steps@),
                    texts(steps@) == goal.take(i as int),
                decreases c.steps.len() - i,
            {
                let ghost before = steps@;
                steps.push(c.steps[i].name.clone());
                proof {
                    assert(goal[i as int] == c.steps@[i as int].name@);
                    assert(texts(steps@) =~= texts(before).push(goal[i as int]));
                    assert(goal.take(i + 1) =~= goal.take(i as int).push(goal[i as int]));
                }
                i = i + 1;
            }
            proof {
                assert(goal.take(goal.len() as int) =~= goal);
            }
        },
        None => {},
    }
    Entry { name, global, kind: EntryKind::Chain { steps } }
}

} // verus!
