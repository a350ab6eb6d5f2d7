use sapper::{
    run_pipeline, Error, GlobalInit, Method, SapperAppShell, SapperHandler, SapperModule,
    SapperRequest, SapperResponse, SapperRouter, StageId,
};

struct Init;

impl GlobalInit for Init {
    fn init(&self, req: &mut SapperRequest) -> Result<(), Error> {
        req.ext_insert(b"init".to_vec(), b"yes".to_vec());
        Ok(())
    }
}

struct Shell;

impl SapperAppShell for Shell {
    fn before(&self, _req: &mut SapperRequest) -> Result<(), Error> {
        Ok(())
    }
    fn after(&self, _req: &SapperRequest, res: &mut SapperResponse) -> Result<(), Error> {
        res.insert_header(b"X-Shell".to_vec(), b"done".to_vec());
        Ok(())
    }
}

/// A module whose `before` demands an `X-Token` header.
struct TokenModule;

impl SapperModule for TokenModule {
    fn before(&self, req: &mut SapperRequest) -> Result<(), Error> {
        match req.header_value(b"X-Token") {
            Some(_) => Ok(()),
            None => Err(Error::Custom(b"missing token".to_vec())),
        }
    }
    fn after(&self, _req: &SapperRequest, res: &mut SapperResponse) -> Result<(), Error> {
        res.insert_header(b"X-Module".to_vec(), b"after".to_vec());
        Ok(())
    }
    fn router(&self, router: &mut SapperRouter) -> Result<(), Error> {
        router.route(Method::Get, "/user/:id", 0)
    }
}

struct HelloHandler;

impl SapperHandler for HelloHandler {
    fn handle(&self, _req: &mut SapperRequest) -> Result<SapperResponse, Error> {
        let mut res = SapperResponse::new();
        res.write_body("hello".to_string());
        Ok(res)
    }
}

fn request(headers: Vec<(Vec<u8>, Vec<u8>)>) -> SapperRequest {
    SapperRequest::new(Method::Get, b"/user/42".to_vec(), None, headers, None)
}

#[test]
fn all_stages_run_in_order_on_success() {
    let mut req = request(vec![(b"X-Token".to_vec(), b"t".to_vec())]);
    let (result, trace) = run_pipeline(
        Some(&Init),
        Some(&Shell),
        &TokenModule,
        &HelloHandler,
        &mut req,
    );
    let res = result.unwrap();
    assert_eq!(
        trace,
        vec![
            StageId::Init,
            StageId::ShellBefore,
            StageId::ModuleBefore,
            StageId::Handler,
            StageId::ModuleAfter,
            StageId::ShellAfter,
        ]
    );
    assert_eq!(res.status(), 200);
    assert_eq!(res.body().as_ref().unwrap(), &b"hello".to_vec());
    // both after hooks really ran, in order
    assert_eq!(
        res.headers(),
        &vec![
            (b"X-Module".to_vec(), b"after".to_vec()),
            (b"X-Shell".to_vec(), b"done".to_vec()),
        ]
    );
    // the initializer really ran
    assert_eq!(req.ext_get(b"init").unwrap(), &b"yes".to_vec());
}

#[test]
fn failing_before_skips_handler_and_afters() {
    // the request lacks X-Token: module.before fails, so neither the leaf
    // handler nor either after hook may run, and the pipeline's result is
    // exactly that failure
    let mut req = request(vec![]);
    let (result, trace) = run_pipeline(
        Some(&Init),
        Some(&Shell),
        &TokenModule,
        &HelloHandler,
        &mut req,
    );
    assert_eq!(
        result.unwrap_err(),
        Error::Custom(b"missing token".to_vec())
    );
    assert_eq!(
        trace,
        vec![StageId::Init, StageId::ShellBefore, StageId::ModuleBefore]
    );
    assert!(!trace.contains(&StageId::Handler));
    assert!(!trace.contains(&StageId::ModuleAfter));
    assert!(!trace.contains(&StageId::ShellAfter));
}

#[test]
fn absent_init_and_shell_are_skipped() {
    let mut req = request(vec![(b"X-Token".to_vec(), b"t".to_vec())]);
    let (result, trace) = run_pipeline(
        None::<&Init>,
        None::<&Shell>,
        &TokenModule,
        &HelloHandler,
        &mut req,
    );
    assert!(result.is_ok());
    assert_eq!(
        trace,
        vec![StageId::ModuleBefore, StageId::Handler, StageId::ModuleAfter]
    );
}

struct FailingHandler;

impl SapperHandler for FailingHandler {
    fn handle(&self, _req: &mut SapperRequest) -> Result<SapperResponse, Error> {
        Err(Error::Fatal(b"boom".to_vec()))
    }
}

#[test]
fn failing_handler_skips_afters() {
    let mut req = request(vec![(b"X-Token".to_vec(), b"t".to_vec())]);
    let (result, trace) = run_pipeline(
        None::<&Init>,
        Some(&Shell),
        &TokenModule,
        &FailingHandler,
        &mut req,
    );
    assert_eq!(result.unwrap_err(), Error::Fatal(b"boom".to_vec()));
    assert_eq!(
        trace,
        vec![
            StageId::ShellBefore,
            StageId::ModuleBefore,
            StageId::Handler
        ]
    );
}
