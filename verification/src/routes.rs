//! The route table: an exact-match mapping from request paths to the
//! (body, content type) pair that the route produces. It is filled once
//! at startup and only read at dispatch time.

use vstd::prelude::*;
use crate::text::str_eq;

verus! {

/// One registered route.
pub struct RouteEntry {
    pub path: String,
    pub body: String,
    pub content_type: String,
}

/// The map denoted by an entry list: a later entry for a path overrides
/// an earlier one.
pub open spec fn routes_map(s: Seq<RouteEntry>) -> Map<Seq<char>, (Seq<char>, Seq<char>)>
    decreases s.len(),
{
    if s.len() == 0 {
        Map::empty()
    } else {
        routes_map(s.drop_last()).insert(s.last().path@, (s.last().body@, s.last().content_type@))
    }
}

/// A mapping from exact request paths to in-process route outputs.
pub struct RouteTable {
    entries: Vec<RouteEntry>,
}

impl View for RouteTable {
    type V = Map<Seq<char>, (Seq<char>, Seq<char>)>;

    closed spec fn view(&self) -> Map<Seq<char>, (Seq<char>, Seq<char>)> {
        routes_map(self.entries@)
    }
}

impl RouteTable {
    pub fn new() -> (r: RouteTable)
        ensures
            r@ == Map::<Seq<char>, (Seq<char>, Seq<char>)>::empty(),
    {
        let r = RouteTable { entries: Vec::new() };
        proof {
            assert(r.entries@ =~= Seq::<RouteEntry>::empty());
        }
        r
    }

    /// Registers a route: requests for exactly `path` answer with `body`
    /// under `content_type`.
    pub fn insert(&mut self, path: String, body: String, content_type: String)
        ensures
            final(self)@ == old(self)@.insert(path@, (body@, content_type@)),
    {
        let ghost pre = self.entries@;
        self.entries.push(RouteEntry { path, body, content_type });
        proof {
            assert(self.entries@.drop_last() =~= pre);
        }
    }

    /// Looks a path up; `Some` holds the body and content type of the
    /// last route registered under that exact path.
    pub fn get<'a>(&'a self, path: &str) -> (r: Option<(&'a String, &'a String)>)
        ensures
            match r {
                Some(v) => self@.contains_key(path@) && (v.0@, v.1@) == self@[path@],
                None => !self@.contains_key(path@),
            },
    {
        let n = self.entries.len();
        let mut i: usize = n;
        proof {
            assert(self.entries@.take(n as int) =~= self.entries@);
        }
        while i > 0
            invariant
                i <= n,
                n == self.entries@.len(),
                self@.contains_key(path@) == routes_map(self.entries@.take(i as int)).contains_key(
                    path@,
                ),
                self@.contains_key(path@) ==> self@[path@] == routes_map(
                    self.entries@.take(i as int),
                )[path@],
            decreases i,
        {
            proof {
                assert(self.entries@.take(i as int).drop_last() =~= self.entries@.take(i - 1));
                assert(self.entries@.take(i as int).last() == self.entries@[i - 1]);
            }
            if str_eq(self.entries[i - 1].path.as_str(), path) {
                return Some((&self.entries[i - 1].body, &self.entries[i - 1].content_type));
            }
            i -= 1;
        }
        proof {
            assert(self.entries@.take(0) =~= Seq::<RouteEntry>::empty());
        }
        None
    }
}

} // verus!
