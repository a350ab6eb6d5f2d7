//! Application assembly: the builder around the sealed route table, the
//! composition of module routers into it, and the decisions around one
//! request — which response an error maps to, and when the static-file
//! fallback may be consulted.

use vstd::prelude::*;

use crate::errors::{Error, spec_status_of};
use crate::pipeline::SapperModule;
use crate::recognizer::SLASH;
use crate::request::kv_views;
use crate::response::{ResponseView, SapperResponse};
use crate::router::{
    Router, RouterEntry, RouterEntryView, SapperRouter, TableEntry, TableEntryView,
    router_entry_views,
};
use vstd::string::StringSliceAdditionalSpecFns;

verus! {

/// The table entries a module's registrations become, each tagged with the
/// owning module.
pub open spec fn spec_tagged(regs: Seq<RouterEntryView>, module_id: int) -> Seq<TableEntryView> {
    regs.map_values(
        |e: RouterEntryView|
            TableEntryView {
                method: e.method,
                pattern: e.pattern,
                module_id,
                handler_id: e.handler_id,
            },
    )
}

/// Moves every entry of a module's router into the sealed table, in order,
/// tagged with the owning module.
fn merge_routes(table: &mut Router, module_id: usize, entries: Vec<RouterEntry>) -> (r: ())
    ensures
        final(table)@ == old(table)@ + spec_tagged(
            router_entry_views(entries@),
            module_id as int,
        ),
{
    let ghost full = spec_tagged(router_entry_views(entries@), module_id as int);
    let mut rest = entries;
    proof {
        assert(spec_tagged(router_entry_views(rest@), module_id as int) =~~= full);
        assert(old(table)@ + full =~~= table@ + spec_tagged(
            router_entry_views(rest@),
            module_id as int,
        ));
    }
    while rest.len() > 0
        invariant
            old(table)@ + full == table@ + spec_tagged(
                router_entry_views(rest@),
                module_id as int,
            ),
        decreases rest.len(),
    {
        let ghost pre = spec_tagged(router_entry_views(rest@), module_id as int);
        let e = rest.remove(0);
        let entry = TableEntry {
            method: e.method,
            pattern: e.pattern,
            module_id,
            handler_id: e.handler_id,
        };
        proof {
            assert(pre[0] == entry@);
            assert(spec_tagged(router_entry_views(rest@), module_id as int) =~~= pre.drop_first());
        }
        let ghost old_table = table@;
        table.push_entry(entry);
        proof {
            assert(old_table + pre =~~= table@ + pre.drop_first());
        }
    }
    proof {
        assert(spec_tagged(router_entry_views(rest@), module_id as int).len() == 0);
        assert(table@ + spec_tagged(router_entry_views(rest@), module_id as int) =~~= table@);
    }
}

/// The application under construction: listening address and port, the
/// static-file toggle, the shared route table, and the count of modules
/// composed so far (the next module's identifier).
pub struct SapperApp {
    pub address: String,
    pub port: u32,
    pub static_service: bool,
    pub routers: Router,
    pub modules_added: usize,
}

impl SapperApp {
    /// A fresh application: no address, port 0, static files served, no
    /// routes.
    pub fn new() -> (r: SapperApp)
        ensures
            r.address@ == Seq::<char>::empty(),
            r.port == 0,
            r.static_service == true,
            r.routers@ == Seq::<TableEntryView>::empty(),
            r.modules_added == 0,
    {
        let a = String::new();
        proof {
            assert(a@ =~= Seq::<char>::empty());
        }
        SapperApp {
            address: a,
            port: 0,
            static_service: true,
            routers: Router::new(),
            modules_added: 0,
        }
    }

    /// Sets the listening address.
    pub fn address(&mut self, address: &str) -> (r: ())
        ensures
            final(self).address@ == address@,
            final(self).port == old(self).port,
            final(self).static_service == old(self).static_service,
            final(self).routers@ == old(self).routers@,
            final(self).modules_added == old(self).modules_added,
    {
        self.address = address.to_owned();
    }

    /// Sets the listening port.
    pub fn port(&mut self, port: u32) -> (r: ())
        ensures
            final(self).address@ == old(self).address@,
            final(self).port == port,
            final(self).static_service == old(self).static_service,
            final(self).routers@ == old(self).routers@,
            final(self).modules_added == old(self).modules_added,
    {
        self.port = port;
    }

    /// Turns the static-file fallback on or off.
    pub fn static_service(&mut self, open: bool) -> (r: ())
        ensures
            final(self).address@ == old(self).address@,
            final(self).port == old(self).port,
            final(self).static_service == open,
            final(self).routers@ == old(self).routers@,
            final(self).modules_added == old(self).modules_added,
    {
        self.static_service = open;
    }

    /// Composes one module into the shared table: the module registers its
    /// routes against a private router, and every resulting entry is
    /// re-registered here tagged with this module's identifier, in the
    /// module's own order. When the module's registration fails, nothing
    /// changes and its error is returned.
    pub fn add_module<M: SapperModule>(&mut self, sm: &M) -> (r: Result<(), Error>)
        ensures
            r is Ok ==> final(self).modules_added == old(self).modules_added + 1,
            r is Ok ==> (exists|regs: Seq<RouterEntryView>|
                final(self).routers@ == old(self).routers@ + spec_tagged(
                    regs,
                    old(self).modules_added as int,
                )),
            r is Err ==> final(self).modules_added == old(self).modules_added,
            r is Err ==> final(self).routers@ == old(self).routers@,
            final(self).address@ == old(self).address@,
            final(self).port == old(self).port,
            final(self).static_service == old(self).static_service,
    {
        let mut router = SapperRouter::new();
        match sm.router(&mut router) {
            Ok(()) => {},
            Err(e) => {
                return Err(e);
            },
        }
        if self.modules_added == usize::MAX {
            return Err(Error::InvalidRouterConfig);
        }
        let module_id = self.modules_added;
        merge_routes(&mut self.routers, module_id, router.entries);
        self.modules_added = module_id + 1;
        Ok(())
    }
}

/// The bytes of `static/`, the root every static-file path resolves under.
pub open spec fn spec_static_root() -> Seq<u8> {
    seq![115u8, 116u8, 97u8, 116u8, 105u8, 99u8, 47u8]
}

/// The bytes of `index.html`, appended when a path ends in `/`.
pub open spec fn spec_index_file() -> Seq<u8> {
    seq![105u8, 110u8, 100u8, 101u8, 120u8, 46u8, 104u8, 116u8, 109u8, 108u8]
}

/// Where an unmatched path is looked up on disk: under `static/`, with
/// `index.html` appended when the path ends in `/`.
pub open spec fn spec_static_file_path(path: Seq<u8>) -> Seq<u8> {
    if path.len() > 0 && path.last() == SLASH {
        spec_static_root() + path + spec_index_file()
    } else {
        spec_static_root() + path
    }
}

/// Resolves an unmatched path to its static-file location, as
/// `spec_static_file_path` states.
pub fn static_file_path(path: &Vec<u8>) -> (r: Vec<u8>)
    ensures
        r@ == spec_static_file_path(path@),
{
    // "static/"
    let mut r: Vec<u8> = vec![115u8, 116u8, 97u8, 116u8, 105u8, 99u8, 47u8];
    proof {
        assert(r@ =~= spec_static_root());
    }
    let ghost base = r@;
    let mut i: usize = 0;
    while i < path.len()
        invariant
            i <= path@.len(),
            base == spec_static_root(),
            r@ == base + path@.subrange(0, i as int),
        decreases path@.len() - i,
    {
        r.push(path[i]);
        proof {
            assert(base + path@.subrange(0, i as int + 1) =~= (base + path@.subrange(
                0,
                i as int,
            )).push(path@[i as int]));
        }
        i += 1;
    }
    proof {
        assert(path@.subrange(0, path@.len() as int) =~= path@);
    }
    if path.len() > 0 && path[path.len() - 1] == SLASH {
        // "index.html"
        let suffix: Vec<u8> = vec![105u8, 110u8, 100u8, 101u8, 120u8, 46u8, 104u8, 116u8, 109u8,
            108u8];
        proof {
            assert(suffix@ =~= spec_index_file());
        }
        let ghost with_path = r@;
        let mut j: usize = 0;
        while j < suffix.len()
            invariant
                j <= suffix@.len(),
                r@ == with_path + suffix@.subrange(0, j as int),
            decreases suffix@.len() - j,
        {
            r.push(suffix[j]);
            proof {
                assert(with_path + suffix@.subrange(0, j as int + 1) =~= (with_path
                    + suffix@.subrange(0, j as int)).push(suffix@[j as int]));
            }
            j += 1;
        }
        proof {
            assert(suffix@.subrange(0, suffix@.len() as int) =~= suffix@);
            assert(r@ =~= spec_static_file_path(path@));
        }
    } else {
        proof {
            assert(r@ =~= spec_static_file_path(path@));
        }
    }
    r
}

/// The bytes of `404 Not Found`, the plain not-found body.
pub open spec fn spec_not_found_body() -> Seq<u8> {
    seq![52u8, 48u8, 52u8, 32u8, 78u8, 111u8, 116u8, 32u8, 70u8, 111u8, 117u8, 110u8, 100u8]
}

/// The bytes of the `Location` header name.
pub open spec fn spec_location_name() -> Seq<u8> {
    seq![76u8, 111u8, 99u8, 97u8, 116u8, 105u8, 111u8, 110u8]
}

/// The bytes of the `Content-Type` header name.
pub open spec fn spec_content_type_name() -> Seq<u8> {
    seq![67u8, 111u8, 110u8, 116u8, 101u8, 110u8, 116u8, 45u8, 84u8, 121u8, 112u8, 101u8]
}

/// The response each error kind surfaces as: its status from
/// `spec_status_of`; a redirect carries its target in a `Location` header;
/// anything missing carries the plain not-found body; a `Break`, `Fatal` or
/// `Custom` reason becomes the body.
pub open spec fn spec_error_response(e: Error) -> ResponseView {
    match e {
        Error::NotFound(_) => ResponseView {
            status: 404,
            headers: Seq::<(Seq<u8>, Seq<u8>)>::empty(),
            body: Some(spec_not_found_body()),
        },
        Error::FileNotExist => ResponseView {
            status: 404,
            headers: Seq::<(Seq<u8>, Seq<u8>)>::empty(),
            body: Some(spec_not_found_body()),
        },
        Error::ShouldRedirect(t) => ResponseView {
            status: 302,
            headers: seq![(spec_location_name(), t@)],
            body: None::<Seq<u8>>,
        },
        Error::Break(reason) => ResponseView {
            status: 200,
            headers: Seq::<(Seq<u8>, Seq<u8>)>::empty(),
            body: Some(reason@),
        },
        Error::Fatal(reason) => ResponseView {
            status: 500,
            headers: Seq::<(Seq<u8>, Seq<u8>)>::empty(),
            body: Some(reason@),
        },
        Error::Custom(reason) => ResponseView {
            status: 500,
            headers: Seq::<(Seq<u8>, Seq<u8>)>::empty(),
            body: Some(reason@),
        },
        Error::InvalidConfig => ResponseView {
            status: 500,
            headers: Seq::<(Seq<u8>, Seq<u8>)>::empty(),
            body: None::<Seq<u8>>,
        },
        Error::InvalidRouterConfig => ResponseView {
            status: 500,
            headers: Seq::<(Seq<u8>, Seq<u8>)>::empty(),
            body: None::<Seq<u8>>,
        },
    }
}

/// Builds the response an error surfaces as, as `spec_error_response`
/// states; the status agrees with `spec_status_of`.
pub fn error_response(e: Error) -> (r: SapperResponse)
    ensures
        r@ == spec_error_response(e),
        r@.status == spec_status_of(e),
{
    let mut res = SapperResponse::new();
    match e {
        Error::NotFound(_) => {
            res.set_status(404);
            res.write_raw_body(
                vec![52u8, 48u8, 52u8, 32u8, 78u8, 111u8, 116u8, 32u8, 70u8, 111u8, 117u8, 110u8,
                    100u8],
            );
            proof {
                assert(res@ =~~= spec_error_response(e));
            }
        },
        Error::FileNotExist => {
            res.set_status(404);
            res.write_raw_body(
                vec![52u8, 48u8, 52u8, 32u8, 78u8, 111u8, 116u8, 32u8, 70u8, 111u8, 117u8, 110u8,
                    100u8],
            );
            proof {
                assert(res@ =~~= spec_error_response(e));
            }
        },
        Error::ShouldRedirect(t) => {
            res.set_status(302);
            let name: Vec<u8> = vec![76u8, 111u8, 99u8, 97u8, 116u8, 105u8, 111u8, 110u8];
            proof {
                assert(name@ =~= spec_location_name());
            }
            let ghost tv = t@;
            res.insert_header(name, t);
            proof {
                assert(res@.headers =~~= seq![(spec_location_name(), tv)]);
                assert(res@ =~~= spec_error_response(Error::ShouldRedirect(t)));
            }
        },
        Error::Break(reason) => {
            res.write_raw_body(reason);
            proof {
                assert(res@ =~~= spec_error_response(e));
            }
        },
        Error::Fatal(reason) => {
            res.set_status(500);
            res.write_raw_body(reason);
            proof {
                assert(res@ =~~= spec_error_response(e));
            }
        },
        Error::Custom(reason) => {
            res.set_status(500);
            res.write_raw_body(reason);
            proof {
                assert(res@ =~~= spec_error_response(e));
            }
        },
        Error::InvalidConfig => {
            res.set_status(500);
            proof {
                assert(res@ =~~= spec_error_response(e));
            }
        },
        Error::InvalidRouterConfig => {
            res.set_status(500);
            proof {
                assert(res@ =~~= spec_error_response(e));
            }
        },
    }
    res
}

/// What the application does with one route outcome: send a finished
/// response, or — only for an unmatched path with static serving on — look
/// for a file at the resolved location.
pub enum ServeStep {
    Done(SapperResponse),
    TryStatic(Vec<u8>),
}

/// Decides the step after route handling. A successful response goes out as
/// it is. An unmatched path consults the static-file fallback only when
/// static serving is on, and otherwise — like every other error — surfaces
/// as that error's response, with no filesystem access.
pub fn plan_response(static_on: bool, path: &Vec<u8>, outcome: Result<SapperResponse, Error>) -> (r:
    ServeStep)
    ensures
        (outcome matches Ok(res) ==> (r matches ServeStep::Done(d) && d@ == res@)),
        (outcome matches Err(e) ==> (if (e is NotFound && static_on) {
            r matches ServeStep::TryStatic(p) && p@ == spec_static_file_path(path@)
        } else {
            r matches ServeStep::Done(d) && d@ == spec_error_response(e)
        })),
{
    match outcome {
        Ok(res) => ServeStep::Done(res),
        Err(e) => {
            let is_not_found = match &e {
                Error::NotFound(_) => true,
                _ => false,
            };
            if is_not_found && static_on {
                ServeStep::TryStatic(static_file_path(path))
            } else {
                ServeStep::Done(error_response(e))
            }
        },
    }
}

/// What the static-file fallback found, if anything: the file's bytes and
/// the MIME type to label them with.
pub fn plan_static_response(found: Option<(Vec<u8>, Vec<u8>)>) -> (r: SapperResponse)
    ensures
        (found matches Some(f) ==> r@ == (ResponseView {
            status: 200,
            headers: seq![(spec_content_type_name(), f.1@)],
            body: Some(f.0@),
        })),
        (found is None ==> r@ == spec_error_response(Error::FileNotExist)),
{
    let mut res = SapperResponse::new();
    match found {
        Some((bytes, mime)) => {
            let name: Vec<u8> = vec![67u8, 111u8, 110u8, 116u8, 101u8, 110u8, 116u8, 45u8, 84u8,
                121u8, 112u8, 101u8];
            proof {
                assert(name@ =~= spec_content_type_name());
            }
            let ghost mv = mime@;
            let ghost bv = bytes@;
            res.insert_header(name, mime);
            res.write_raw_body(bytes);
            proof {
                assert(res@.headers =~~= seq![(spec_content_type_name(), mv)]);
            }
            res
        },
        None => {
            res.set_status(404);
            res.write_raw_body(
                vec![52u8, 48u8, 52u8, 32u8, 78u8, 111u8, 116u8, 32u8, 70u8, 111u8, 117u8, 110u8,
                    100u8],
            );
            proof {
                assert(res@ =~~= spec_error_response(Error::FileNotExist));
            }
            res
        },
    }
}

/// The MIME type registered for a file path's extension, when the path is
/// valid text and its extension is known.
pub uninterp spec fn mime_of(path: Seq<u8>) -> Option<Seq<char>>;

/// Relies on `conduit_mime_types::mime_for_path`: the MIME type its
/// compiled-in table registers for the path's extension, a function of the
/// path alone.
#[verifier::external_body]
fn mime_lookup(path: &Vec<u8>) -> (r: Option<String>)
    ensures
        match r {
            Some(s) => mime_of(path@) == Some(s@),
            None => mime_of(path@) is None,
        },
{
    core::str::from_utf8(path.as_slice()).ok().and_then(|s| {
        conduit_mime_types::mime_for_path(std::path::Path::new(s))
    }).map(|s| s.to_owned())
}

/// The bytes of `application/octet-stream`, the label for content of
/// unknown type.
pub open spec fn spec_octet_stream() -> Seq<u8> {
    seq![97u8, 112u8, 112u8, 108u8, 105u8, 99u8, 97u8, 116u8, 105u8, 111u8, 110u8, 47u8, 111u8,
        99u8, 116u8, 101u8, 116u8, 45u8, 115u8, 116u8, 114u8, 101u8, 97u8, 109u8]
}

/// The `Content-Type` value for a static file: the MIME type its extension
/// is registered with, or `application/octet-stream` when none is.
pub fn content_type_for(path: &Vec<u8>) -> (r: Vec<u8>)
    ensures
        match mime_of(path@) {
            Some(m) => r@ == vstd::utf8::encode_utf8(m),
            None => r@ == spec_octet_stream(),
        },
{
    match mime_lookup(path) {
        Some(s) => s.as_str().as_bytes_vec(),
        None => {
            let r: Vec<u8> = vec![97u8, 112u8, 112u8, 108u8, 105u8, 99u8, 97u8, 116u8, 105u8,
                111u8, 110u8, 47u8, 111u8, 99u8, 116u8, 101u8, 116u8, 45u8, 115u8, 116u8, 114u8,
                101u8, 97u8, 109u8];
            proof {
                assert(r@ =~= spec_octet_stream());
            }
            r
        },
    }
}

} // verus!
