//! Method-keyed route tables.
//!
//! A module registers its routes in a `SapperRouter`; the application merges
//! every module's router into one sealed `Router` whose entries carry the
//! owning module. Lookup scans entries in registration order and the first
//! entry whose method and pattern both match wins.

use vstd::prelude::*;

use crate::errors::Error;
use crate::recognizer::{
    Pattern, SegView, compile, match_segments, pairs_view, split_segments, spec_match_segs,
    spec_pattern_of, spec_pattern_wf, spec_split, bytes_views,
};
use vstd::string::StringSliceAdditionalSpecFns;

verus! {

/// An HTTP request method.
#[derive(Clone, Copy, PartialEq, Eq, Structural, Debug)]
pub enum Method {
    Get,
    Post,
    Put,
    Delete,
    Head,
    Options,
    Patch,
}

/// One route a module registered: its method, compiled pattern, and the
/// module-chosen handler identifier.
pub struct RouterEntry {
    pub method: Method,
    pub pattern: Pattern,
    pub handler_id: usize,
}

/// Model of a module-local route entry.
pub struct RouterEntryView {
    pub method: Method,
    pub pattern: Seq<SegView>,
    pub handler_id: int,
}

impl View for RouterEntry {
    type V = RouterEntryView;

    open spec fn view(&self) -> RouterEntryView {
        RouterEntryView {
            method: self.method,
            pattern: self.pattern@,
            handler_id: self.handler_id as int,
        }
    }
}

/// The views of a sequence of module-local entries.
pub open spec fn router_entry_views(v: Seq<RouterEntry>) -> Seq<RouterEntryView> {
    v.map_values(|e: RouterEntry| e@)
}

/// The route table one module fills during registration. Entries keep
/// registration order, which decides match precedence.
pub struct SapperRouter {
    pub entries: Vec<RouterEntry>,
}

impl View for SapperRouter {
    type V = Seq<RouterEntryView>;

    open spec fn view(&self) -> Seq<RouterEntryView> {
        router_entry_views(self.entries@)
    }
}

impl SapperRouter {
    /// An empty router.
    pub fn new() -> (r: SapperRouter)
        ensures
            r@ == Seq::<RouterEntryView>::empty(),
    {
        let r = SapperRouter { entries: Vec::new() };
        proof {
            assert(r@ =~~= Seq::<RouterEntryView>::empty());
        }
        r
    }

    /// Compiles `glob` and appends the route. Exactly the well-formed
    /// patterns are accepted; a malformed one yields
    /// `Error::InvalidRouterConfig` and leaves the router unchanged.
    pub fn route(&mut self, method: Method, glob: &str, handler_id: usize) -> (r: Result<
        (),
        Error,
    >)
        ensures
            r is Ok <==> spec_pattern_wf(spec_pattern_of(glob.spec_bytes())),
            r is Ok ==> final(self)@ == old(self)@.push(
                RouterEntryView {
                    method,
                    pattern: spec_pattern_of(glob.spec_bytes()),
                    handler_id: handler_id as int,
                },
            ),
            r is Err ==> (r matches Err(e) && e is InvalidRouterConfig) && final(self)@ == old(
                self,
            )@,
    {
        match compile(glob) {
            Ok(pattern) => {
                let ghost old_views = self@;
                self.entries.push(RouterEntry { method, pattern, handler_id });
                proof {
                    assert(self@ =~~= old_views.push(
                        RouterEntryView {
                            method,
                            pattern: spec_pattern_of(glob.spec_bytes()),
                            handler_id: handler_id as int,
                        },
                    ));
                }
                Ok(())
            },
            Err(_) => Err(Error::InvalidRouterConfig),
        }
    }
}

/// One entry of the sealed application table: a module-local route plus the
/// identifier of the module that owns it.
pub struct TableEntry {
    pub method: Method,
    pub pattern: Pattern,
    pub module_id: usize,
    pub handler_id: usize,
}

/// Model of an application table entry.
pub struct TableEntryView {
    pub method: Method,
    pub pattern: Seq<SegView>,
    pub module_id: int,
    pub handler_id: int,
}

impl View for TableEntry {
    type V = TableEntryView;

    open spec fn view(&self) -> TableEntryView {
        TableEntryView {
            method: self.method,
            pattern: self.pattern@,
            module_id: self.module_id as int,
            handler_id: self.handler_id as int,
        }
    }
}

/// The views of a sequence of table entries.
pub open spec fn table_entry_views(v: Seq<TableEntry>) -> Seq<TableEntryView> {
    v.map_values(|e: TableEntry| e@)
}

/// Whether a table entry matches a request's method and split path.
pub open spec fn spec_entry_matches(e: TableEntryView, m: Method, ss: Seq<Seq<u8>>) -> bool {
    e.method == m && spec_match_segs(e.pattern, ss) is Some
}

/// The index of the first table entry matching the method and split path.
pub open spec fn spec_first_match(entries: Seq<TableEntryView>, m: Method, ss: Seq<Seq<u8>>) -> Option<int>
    decreases entries.len(),
{
    if entries.len() == 0 {
        None::<int>
    } else if spec_entry_matches(entries[0], m, ss) {
        Some(0int)
    } else {
        match spec_first_match(entries.drop_first(), m, ss) {
            Some(i) => Some(i + 1),
            None => None::<int>,
        }
    }
}

/// The first match is a match, comes no later than any other match, and
/// exists whenever any entry matches.
pub proof fn lemma_first_match_is_least(entries: Seq<TableEntryView>, m: Method, ss: Seq<Seq<u8>>)
    ensures
        spec_first_match(entries, m, ss) matches Some(i) ==> 0 <= i < entries.len()
            && spec_entry_matches(entries[i], m, ss) && (forall|j: int|
            0 <= j < i ==> !spec_entry_matches(#[trigger] entries[j], m, ss)),
        spec_first_match(entries, m, ss) is None ==> forall|j: int|
            0 <= j < entries.len() ==> !spec_entry_matches(#[trigger] entries[j], m, ss),
    decreases entries.len(),
{
    if entries.len() == 0 {
    } else if spec_entry_matches(entries[0], m, ss) {
    } else {
        let d = entries.drop_first();
        lemma_first_match_is_least(d, m, ss);
        match spec_first_match(d, m, ss) {
            Some(i) => {
                assert(d[i] == entries[i + 1]);
                assert forall|j: int|
                    0 <= j < i + 1 implies !spec_entry_matches(#[trigger] entries[j], m, ss) by {
                    if j > 0 {
                        assert(entries[j] == d[j - 1]);
                    }
                }
            },
            None => {
                assert forall|j: int|
                    0 <= j < entries.len() implies !spec_entry_matches(
                    #[trigger] entries[j],
                    m,
                    ss,
                ) by {
                    if j > 0 {
                        assert(entries[j] == d[j - 1]);
                    }
                }
            },
        }
    }
}

/// When two registered entries both match, lookup resolves to the earlier
/// of them (or an even earlier match): registration order is precedence.
pub proof fn lemma_lookup_prefers_earlier(
    entries: Seq<TableEntryView>,
    m: Method,
    ss: Seq<Seq<u8>>,
    i: int,
    j: int,
)
    requires
        0 <= i < j < entries.len(),
        spec_entry_matches(entries[i], m, ss),
        spec_entry_matches(entries[j], m, ss),
    ensures
        spec_first_match(entries, m, ss) matches Some(k) && k <= i,
{
    lemma_first_match_is_least(entries, m, ss);
}

/// The sealed application-wide route table.
pub struct Router {
    pub entries: Vec<TableEntry>,
}

impl View for Router {
    type V = Seq<TableEntryView>;

    open spec fn view(&self) -> Seq<TableEntryView> {
        table_entry_views(self.entries@)
    }
}

impl Router {
    /// An empty table.
    pub fn new() -> (r: Router)
        ensures
            r@ == Seq::<TableEntryView>::empty(),
    {
        let r = Router { entries: Vec::new() };
        proof {
            assert(r@ =~~= Seq::<TableEntryView>::empty());
        }
        r
    }

    /// Appends one entry to the sealed table being built.
    pub fn push_entry(&mut self, e: TableEntry) -> (r: ())
        ensures
            final(self)@ == old(self)@.push(e@),
    {
        let ghost old_views = self@;
        let ghost ev = e@;
        self.entries.push(e);
        proof {
            assert(self@ =~~= old_views.push(ev));
        }
    }

    /// Resolves a method and path to the first matching entry, in
    /// registration order: returns that entry's module and handler
    /// identifiers and the pattern's parameter bindings, or
    /// `Error::NotFound` carrying the path when no entry matches.
    pub fn lookup(&self, method: Method, path: &str) -> (r: Result<
        (usize, usize, Vec<(Vec<u8>, Vec<u8>)>),
        Error,
    >)
        ensures
            match spec_first_match(self@, method, spec_split(path.spec_bytes())) {
                Some(i) => r matches Ok((module_id, handler_id, params))
                    && module_id as int == self@[i].module_id && handler_id as int
                    == self@[i].handler_id && spec_match_segs(
                    self@[i].pattern,
                    spec_split(path.spec_bytes()),
                ) == Some(pairs_view(params@)),
                None => r matches Err(e) && e matches Error::NotFound(p) && p@
                    == path.spec_bytes(),
            },
    {
        let ghost tv = self@;
        let ghost ssv = spec_split(path.spec_bytes());
        let ss = split_segments(path.as_bytes());
        let n = self.entries.len();
        let mut k: usize = 0;
        proof {
            assert(tv.subrange(0, tv.len() as int) =~~= tv);
        }
        while k < n
            invariant
                k <= n,
                n == self.entries@.len(),
                tv == self@,
                ssv == bytes_views(ss@),
                ssv == spec_split(path.spec_bytes()),
                tv.len() == n,
                spec_first_match(tv, method, ssv) == (match spec_first_match(
                    tv.subrange(k as int, tv.len() as int),
                    method,
                    ssv,
                ) {
                    Some(i) => Some(i + k),
                    None => None::<int>,
                }),
            decreases n - k,
        {
            let ghost rest = tv.subrange(k as int, tv.len() as int);
            proof {
                assert(rest[0] == tv[k as int]);
                assert(rest.drop_first() =~~= tv.subrange(k as int + 1, tv.len() as int));
            }
            let e = &self.entries[k];
            if e.method == method {
                match match_segments(&e.pattern, &ss) {
                    Some(params) => {
                        proof {
                            assert(spec_entry_matches(tv[k as int], method, ssv));
                            assert(spec_first_match(rest, method, ssv) == Some(0int));
                        }
                        return Ok((e.module_id, e.handler_id, params));
                    },
                    None => {
                        proof {
                            assert(!spec_entry_matches(tv[k as int], method, ssv));
                        }
                    },
                }
            } else {
                proof {
                    assert(!spec_entry_matches(tv[k as int], method, ssv));
                }
            }
            k += 1;
        }
        proof {
            assert(tv.subrange(k as int, tv.len() as int).len() == 0);
            assert(spec_first_match(tv, method, ssv) is None);
        }
        let mut p: Vec<u8> = Vec::new();
        let bytes = path.as_bytes();
        let mut i: usize = 0;
        while i < bytes.len()
            invariant
                i <= bytes@.len(),
                p@ == bytes@.subrange(0, i as int),
            decreases bytes@.len() - i,
        {
            p.push(bytes[i]);
            proof {
                assert(bytes@.subrange(0, i as int).push(bytes@[i as int]) =~= bytes@.subrange(
                    0,
                    i as int + 1,
                ));
            }
            i += 1;
        }
        proof {
            assert(p@ =~= bytes@);
        }
        Err(Error::NotFound(p))
    }
}

} // verus!
