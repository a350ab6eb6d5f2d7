use sapper::{
    content_type_for, error_response, plan_response, plan_static_response, static_file_path,
    status_of, Error, Method, SapperApp, SapperModule, SapperRequest, SapperResponse,
    SapperRouter, ServeStep,
};

#[test]
fn error_kinds_map_to_explicit_status_codes() {
    assert_eq!(status_of(&Error::NotFound(b"/x".to_vec())), 404);
    assert_eq!(status_of(&Error::InvalidConfig), 500);
    assert_eq!(status_of(&Error::InvalidRouterConfig), 500);
    assert_eq!(status_of(&Error::FileNotExist), 404);
    assert_eq!(status_of(&Error::ShouldRedirect(b"/new".to_vec())), 302);
    assert_eq!(status_of(&Error::Break(b"done".to_vec())), 200);
    assert_eq!(status_of(&Error::Fatal(b"f".to_vec())), 500);
    assert_eq!(status_of(&Error::Custom(b"c".to_vec())), 500);
}

#[test]
fn not_found_response_is_plain_404() {
    let res = error_response(Error::NotFound(b"/missing".to_vec()));
    assert_eq!(res.status(), 404);
    assert_eq!(res.body().as_ref().unwrap(), &b"404 Not Found".to_vec());
    assert!(res.headers().is_empty());
}

#[test]
fn redirect_response_carries_location_header() {
    let res = error_response(Error::ShouldRedirect(b"/new".to_vec()));
    assert_eq!(res.status(), 302);
    assert_eq!(
        res.headers(),
        &vec![(b"Location".to_vec(), b"/new".to_vec())]
    );
    assert!(res.body().is_none());
}

#[test]
fn break_and_fatal_carry_their_reason() {
    let res = error_response(Error::Break(b"early".to_vec()));
    assert_eq!(res.status(), 200);
    assert_eq!(res.body().as_ref().unwrap(), &b"early".to_vec());
    let res = error_response(Error::Fatal(b"bad".to_vec()));
    assert_eq!(res.status(), 500);
    assert_eq!(res.body().as_ref().unwrap(), &b"bad".to_vec());
}

#[test]
fn unmatched_path_with_static_off_is_plain_not_found() {
    // static serving disabled: a plain not-found response and no
    // filesystem consultation (no TryStatic step)
    let path = b"/missing".to_vec();
    let step = plan_response(false, &path, Err(Error::NotFound(path.clone())));
    match step {
        ServeStep::Done(res) => {
            assert_eq!(res.status(), 404);
            assert_eq!(res.body().as_ref().unwrap(), &b"404 Not Found".to_vec());
        }
        ServeStep::TryStatic(_) => panic!("static serving is off: no file may be consulted"),
    }
}

#[test]
fn unmatched_path_with_static_on_resolves_under_static_root() {
    let path = b"/missing".to_vec();
    let step = plan_response(true, &path, Err(Error::NotFound(path.clone())));
    match step {
        ServeStep::TryStatic(p) => assert_eq!(p, b"static//missing".to_vec()),
        ServeStep::Done(_) => panic!("expected the static fallback"),
    }
}

#[test]
fn successful_response_passes_through() {
    let mut res = SapperResponse::new();
    res.write_raw_body(b"ok".to_vec());
    let path = b"/a".to_vec();
    match plan_response(true, &path, Ok(res)) {
        ServeStep::Done(d) => assert_eq!(d.body().as_ref().unwrap(), &b"ok".to_vec()),
        _ => panic!("expected the response unchanged"),
    }
}

#[test]
fn non_not_found_errors_never_consult_static() {
    let path = b"/a".to_vec();
    match plan_response(true, &path, Err(Error::Fatal(b"x".to_vec()))) {
        ServeStep::Done(res) => assert_eq!(res.status(), 500),
        ServeStep::TryStatic(_) => panic!("only NotFound may fall back to static files"),
    }
}

#[test]
fn directory_paths_resolve_to_index_html() {
    assert_eq!(
        static_file_path(&b"/".to_vec()),
        b"static//index.html".to_vec()
    );
    assert_eq!(
        static_file_path(&b"/css/app.css".to_vec()),
        b"static//css/app.css".to_vec()
    );
    assert_eq!(
        static_file_path(&b"/docs/".to_vec()),
        b"static//docs/index.html".to_vec()
    );
}

#[test]
fn found_file_is_served_with_its_mime_type() {
    let res = plan_static_response(Some((b"body{}".to_vec(), b"text/css".to_vec())));
    assert_eq!(res.status(), 200);
    assert_eq!(
        res.headers(),
        &vec![(b"Content-Type".to_vec(), b"text/css".to_vec())]
    );
    assert_eq!(res.body().as_ref().unwrap(), &b"body{}".to_vec());
}

#[test]
fn missing_file_is_plain_not_found() {
    let res = plan_static_response(None);
    assert_eq!(res.status(), 404);
    assert_eq!(res.body().as_ref().unwrap(), &b"404 Not Found".to_vec());
}

#[test]
fn content_type_comes_from_the_extension() {
    assert_eq!(
        content_type_for(&b"static//app.css".to_vec()),
        b"text/css".to_vec()
    );
    assert_eq!(
        content_type_for(&b"static//index.html".to_vec()),
        b"text/html".to_vec()
    );
    assert_eq!(
        content_type_for(&b"static//mystery".to_vec()),
        b"application/octet-stream".to_vec()
    );
}

struct UserModule;

impl SapperModule for UserModule {
    fn before(&self, _req: &mut SapperRequest) -> Result<(), Error> {
        Ok(())
    }
    fn after(&self, _req: &SapperRequest, _res: &mut SapperResponse) -> Result<(), Error> {
        Ok(())
    }
    fn router(&self, router: &mut SapperRouter) -> Result<(), Error> {
        router.route(Method::Get, "/user/:id", 0)?;
        router.route(Method::Post, "/user", 1)?;
        Ok(())
    }
}

struct BadModule;

impl SapperModule for BadModule {
    fn before(&self, _req: &mut SapperRequest) -> Result<(), Error> {
        Ok(())
    }
    fn after(&self, _req: &SapperRequest, _res: &mut SapperResponse) -> Result<(), Error> {
        Ok(())
    }
    fn router(&self, router: &mut SapperRouter) -> Result<(), Error> {
        router.route(Method::Get, "/a/:x/:x", 0)
    }
}

#[test]
fn composed_modules_route_with_their_own_identifiers() {
    let mut app = SapperApp::new();
    app.address("127.0.0.1");
    app.port(8080);
    app.static_service(false);
    app.add_module(&UserModule).unwrap();
    app.add_module(&UserModule).unwrap();

    let (module_id, handler_id, params) = app.routers.lookup(Method::Get, "/user/7").unwrap();
    // the first module registered first: it wins
    assert_eq!(module_id, 0);
    assert_eq!(handler_id, 0);
    assert_eq!(params, vec![(b"id".to_vec(), b"7".to_vec())]);

    let (module_id, handler_id, _) = app.routers.lookup(Method::Post, "/user").unwrap();
    assert_eq!(module_id, 0);
    assert_eq!(handler_id, 1);
}

#[test]
fn bad_module_registration_aborts_composition() {
    let mut app = SapperApp::new();
    assert_eq!(
        app.add_module(&BadModule).unwrap_err(),
        Error::InvalidRouterConfig
    );
    assert!(app.routers.lookup(Method::Get, "/a/1/2").is_err());
}

#[test]
fn builder_settings_stick() {
    let mut app = SapperApp::new();
    assert!(app.static_service);
    app.address("0.0.0.0");
    app.port(9000);
    app.static_service(false);
    assert_eq!(app.address, "0.0.0.0".to_string());
    assert_eq!(app.port, 9000);
    assert!(!app.static_service);
}

struct EchoHandler;

impl sapper::SapperHandler for EchoHandler {
    fn handle(&self, req: &mut SapperRequest) -> Result<SapperResponse, Error> {
        let id = req.ext_get(b"id").cloned().unwrap_or_default();
        let mut res = SapperResponse::new();
        res.write_raw_body(id);
        Ok(res)
    }
}

#[test]
fn full_request_flow_matched_route() {
    let mut app = SapperApp::new();
    app.static_service(false);
    app.add_module(&UserModule).unwrap();

    let mut req = SapperRequest::new(Method::Get, b"/user/42".to_vec(), None, vec![], None);
    let path = req.path().clone();
    let (module_id, handler_id, params) = app.routers.lookup(req.method(), "/user/42").unwrap();
    assert_eq!((module_id, handler_id), (0, 0));
    req.ext_insert_all(params);
    let (result, _trace) = sapper::run_pipeline(
        None::<&NoInit>,
        None::<&NoShell>,
        &UserModule,
        &EchoHandler,
        &mut req,
    );
    match plan_response(app.static_service, &path, result) {
        ServeStep::Done(res) => {
            assert_eq!(res.status(), 200);
            // the matched parameter travelled through the extension map
            assert_eq!(res.body().as_ref().unwrap(), &b"42".to_vec());
        }
        ServeStep::TryStatic(_) => panic!("the route matched: no static fallback"),
    }
}

struct NoInit;

impl sapper::GlobalInit for NoInit {
    fn init(&self, _req: &mut SapperRequest) -> Result<(), Error> {
        Ok(())
    }
}

struct NoShell;

impl sapper::SapperAppShell for NoShell {
    fn before(&self, _req: &mut SapperRequest) -> Result<(), Error> {
        Ok(())
    }
    fn after(&self, _req: &SapperRequest, _res: &mut SapperResponse) -> Result<(), Error> {
        Ok(())
    }
}

#[test]
fn full_request_flow_unmatched_route_static_off() {
    let mut app = SapperApp::new();
    app.static_service(false);
    app.add_module(&UserModule).unwrap();

    let path = b"/missing".to_vec();
    let outcome = app
        .routers
        .lookup(Method::Get, "/missing")
        .map(|_| SapperResponse::new());
    match plan_response(app.static_service, &path, outcome) {
        ServeStep::Done(res) => {
            assert_eq!(res.status(), 404);
            assert_eq!(res.body().as_ref().unwrap(), &b"404 Not Found".to_vec());
        }
        ServeStep::TryStatic(_) => panic!("static serving is off"),
    }
}

#[test]
fn request_state_round_trips() {
    let mut req = SapperRequest::new(
        Method::Get,
        b"/p".to_vec(),
        Some(b"a=1".to_vec()),
        vec![(b"Host".to_vec(), b"x".to_vec())],
        Some(b"body".to_vec()),
    );
    assert_eq!(req.method(), Method::Get);
    assert_eq!(req.path(), &b"/p".to_vec());
    assert_eq!(req.query().unwrap(), &b"a=1".to_vec());
    let (path, query) = req.uri();
    assert_eq!(path, &b"/p".to_vec());
    assert_eq!(query.unwrap(), &b"a=1".to_vec());
    assert_eq!(req.header_value(b"Host").unwrap(), &b"x".to_vec());
    assert!(req.header_value(b"Missing").is_none());
    assert_eq!(req.body().as_ref().unwrap(), &b"body".to_vec());

    assert!(req.ext_get(b"k").is_none());
    req.ext_insert(b"k".to_vec(), b"v1".to_vec());
    req.ext_insert(b"k".to_vec(), b"v2".to_vec());
    // the latest binding shadows the earlier one
    assert_eq!(req.ext_get(b"k").unwrap(), &b"v2".to_vec());
    req.ext_insert_all(vec![(b"id".to_vec(), b"42".to_vec())]);
    assert_eq!(req.ext_get(b"id").unwrap(), &b"42".to_vec());
    assert_eq!(req.ext().len(), 3);
}

#[test]
fn response_state_round_trips() {
    let mut res = SapperResponse::new();
    assert_eq!(res.status(), 200);
    assert!(res.headers().is_empty());
    assert!(res.body().is_none());
    res.set_status(201);
    assert_eq!(res.status(), 201);
    res.insert_header(b"X".to_vec(), b"y".to_vec());
    assert_eq!(res.headers(), &vec![(b"X".to_vec(), b"y".to_vec())]);
    res.write_body("text".to_string());
    assert_eq!(res.body().as_ref().unwrap(), &b"text".to_vec());
    res.write_raw_body(vec![1, 2, 3]);
    assert_eq!(res.body().as_ref().unwrap(), &vec![1u8, 2, 3]);
}
