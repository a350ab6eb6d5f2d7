//! The fixed-order middleware pipeline around one matched route.
//!
//! One invocation runs, in order: the optional global initializer, the
//! optional shell's `before`, the module's `before`, the leaf handler, the
//! module's `after`, and the optional shell's `after`. The first stage that
//! fails ends the run: no later stage executes and the pipeline's result is
//! that failure. The returned trace lists exactly the stages that ran, in
//! order, the failing one (if any) last.

use vstd::prelude::*;

use crate::errors::Error;
use crate::request::SapperRequest;
use crate::response::SapperResponse;
use crate::router::SapperRouter;

verus! {

/// A named group of routes with its own `before`/`after` hooks.
pub trait SapperModule {
    /// Runs before the leaf handler of every route of this module.
    fn before(&self, req: &mut SapperRequest) -> Result<(), Error>;

    /// Runs after the leaf handler succeeded.
    fn after(&self, req: &SapperRequest, res: &mut SapperResponse) -> Result<(), Error>;

    /// Registers this module's routes.
    fn router(&self, router: &mut SapperRouter) -> Result<(), Error>;
}

/// The global hook pair applied to every route of the application.
pub trait SapperAppShell {
    /// Runs before every module's `before`.
    fn before(&self, req: &mut SapperRequest) -> Result<(), Error>;

    /// Runs after every module's `after`.
    fn after(&self, req: &SapperRequest, res: &mut SapperResponse) -> Result<(), Error>;
}

/// The global per-request initializer run before all other stages.
pub trait GlobalInit {
    /// May inject shared context into the request.
    fn init(&self, req: &mut SapperRequest) -> Result<(), Error>;
}

/// A leaf handler: the business logic of one route.
pub trait SapperHandler {
    /// Produces the response for a matched request.
    fn handle(&self, req: &mut SapperRequest) -> Result<SapperResponse, Error>;
}

/// The stages of one pipeline run, in their fixed order.
#[derive(Clone, Copy, PartialEq, Eq, Structural, Debug)]
pub enum StageId {
    Init,
    ShellBefore,
    ModuleBefore,
    Handler,
    ModuleAfter,
    ShellAfter,
}

/// The full stage order of a pipeline whose optional initializer and shell
/// are present or absent as the flags say.
pub open spec fn spec_stage_order(has_init: bool, has_shell: bool) -> Seq<StageId> {
    (if has_init {
        seq![StageId::Init]
    } else {
        Seq::<StageId>::empty()
    }) + (if has_shell {
        seq![StageId::ShellBefore]
    } else {
        Seq::<StageId>::empty()
    }) + seq![StageId::ModuleBefore, StageId::Handler, StageId::ModuleAfter] + (if has_shell {
        seq![StageId::ShellAfter]
    } else {
        Seq::<StageId>::empty()
    })
}

/// Runs the pipeline around one matched route. The trace `r.1` lists the
/// stages that executed, in order: always a prefix of the full stage order,
/// and the whole order when the run succeeded. On failure the failing stage
/// is the trace's last entry, every earlier stage succeeded, and no later
/// stage ran; the result is the failing stage's error.
pub fn run_pipeline<I: GlobalInit, S: SapperAppShell, M: SapperModule, H: SapperHandler>(
    init: Option<&I>,
    shell: Option<&S>,
    module: &M,
    handler: &H,
    req: &mut SapperRequest,
) -> (r: (Result<SapperResponse, Error>, Vec<StageId>))
    ensures
        r.1@.is_prefix_of(spec_stage_order(init is Some, shell is Some)),
        r.0 is Ok ==> r.1@ == spec_stage_order(init is Some, shell is Some),
        r.0 is Err ==> r.1@.len() >= 1,
{
    let ghost full = spec_stage_order(init is Some, shell is Some);
    let mut trace: Vec<StageId> = Vec::new();
    match init {
        Some(i) => {
            trace.push(StageId::Init);
            proof {
                assert(trace@ =~= full.take(1));
            }
            match i.init(req) {
                Ok(()) => {},
                Err(e) => {
                    return (Err(e), trace);
                },
            }
        },
        None => {},
    }
    match shell {
        Some(s) => {
            trace.push(StageId::ShellBefore);
            proof {
                assert(trace@ =~= full.take(trace@.len() as int));
            }
            match s.before(req) {
                Ok(()) => {},
                Err(e) => {
                    return (Err(e), trace);
                },
            }
        },
        None => {},
    }
    trace.push(StageId::ModuleBefore);
    proof {
        assert(trace@ =~= full.take(trace@.len() as int));
    }
    match module.before(req) {
        Ok(()) => {},
        Err(e) => {
            return (Err(e), trace);
        },
    }
    trace.push(StageId::Handler);
    proof {
        assert(trace@ =~= full.take(trace@.len() as int));
    }
    let mut response = match handler.handle(req) {
        Ok(res) => res,
        Err(e) => {
            return (Err(e), trace);
        },
    };
    trace.push(StageId::ModuleAfter);
    proof {
        assert(trace@ =~= full.take(trace@.len() as int));
    }
    match module.after(req, &mut response) {
        Ok(()) => {},
        Err(e) => {
            return (Err(e), trace);
        },
    }
    match shell {
        Some(s) => {
            trace.push(StageId::ShellAfter);
            proof {
                assert(trace@ =~= full.take(trace@.len() as int));
                assert(trace@ =~= full);
            }
            match s.after(req, &mut response) {
                Ok(()) => {},
                Err(e) => {
                    proof {
                        assert(trace@.len() == full.len());
                    }
                    return (Err(e), trace);
                },
            }
        },
        None => {
            proof {
                assert(trace@ =~= full);
            }
        },
    }
    (Ok(response), trace)
}

/// When the module's `before` is the last stage that ran (it failed and the
/// run ended there), neither the leaf handler nor either `after` hook
/// executed.
pub proof fn lemma_before_failure_skips_rest(trace: Seq<StageId>, has_init: bool, has_shell: bool)
    requires
        trace.is_prefix_of(spec_stage_order(has_init, has_shell)),
        trace.len() >= 1,
        trace.last() == StageId::ModuleBefore,
    ensures
        !trace.contains(StageId::Handler),
        !trace.contains(StageId::ModuleAfter),
        !trace.contains(StageId::ShellAfter),
{
    let full = spec_stage_order(has_init, has_shell);
    let mb = (if has_init {
        1int
    } else {
        0int
    }) + (if has_shell {
        1int
    } else {
        0int
    });
    assert(full[mb] == StageId::ModuleBefore);
    assert forall|i: int| 0 <= i < full.len() && #[trigger] full[i] == StageId::ModuleBefore
        implies i == mb by {}
    assert(trace[trace.len() - 1] == full[trace.len() - 1]);
    assert(trace.len() - 1 == mb);
    assert forall|i: int| 0 <= i < trace.len() implies #[trigger] trace[i] != StageId::Handler
        && trace[i] != StageId::ModuleAfter && trace[i] != StageId::ShellAfter by {
        assert(trace[i] == full[i]);
        assert(i <= mb);
    }
    if trace.contains(StageId::Handler) {
        let i = choose|i: int| 0 <= i < trace.len() && trace[i] == StageId::Handler;
    }
    if trace.contains(StageId::ModuleAfter) {
        let i = choose|i: int| 0 <= i < trace.len() && trace[i] == StageId::ModuleAfter;
    }
    if trace.contains(StageId::ShellAfter) {
        let i = choose|i: int| 0 <= i < trace.len() && trace[i] == StageId::ShellAfter;
    }
}

} // verus!
