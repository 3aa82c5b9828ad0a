//! Actions: terminal, side-effecting consumers of the finally chosen item.
//! An action may fail; its outcome is not a function of the item, so the
//! contract only records which outcomes the underlying consumer admits.

use crate::pure::{consumer_fn_total, project_fn_models, project_spec_of};
use vstd::prelude::*;

verus! {

/// A side-effecting consumer of the chosen item.
pub trait Action {
    type Context;

    type Error;

    /// The consumer accepts every item it may be handed.
    spec fn wf(&self) -> bool;

    /// Which outcomes a run on `ctx` may have.
    spec fn admits(&self, ctx: Self::Context, r: Result<(), Self::Error>) -> bool;

    /// Run the action on the chosen `ctx`.
    fn act(&self, ctx: &Self::Context) -> (r: Result<(), Self::Error>)
        requires
            self.wf(),
        ensures
            self.admits(*ctx, r),
    ;
}

/// An [`Action`] made from a plain closure.
#[verifier::reject_recursive_types(Context)]
#[verifier::reject_recursive_types(E)]
pub struct ClosureAction<Context, E, F> where F: Fn(&Context) -> Result<(), E> {
    f: F,
    _marker: core::marker::PhantomData<(Context, E)>,
}

impl<Context, E, F> ClosureAction<Context, E, F> where F: Fn(&Context) -> Result<(), E> {
    /// The wrapped closure.
    pub closed spec fn func(&self) -> F {
        self.f
    }

    pub fn new(f: F) -> (r: Self)
        ensures
            r.func() == f,
    {
        ClosureAction { f, _marker: core::marker::PhantomData }
    }
}

impl<Context, E, F> Action for ClosureAction<Context, E, F> where F: Fn(&Context) -> Result<
    (),
    E,
> {
    type Context = Context;

    type Error = E;

    open spec fn wf(&self) -> bool {
        consumer_fn_total(self.func())
    }

    open spec fn admits(&self, ctx: Context, r: Result<(), E>) -> bool {
        call_ensures(self.func(), (&ctx,), r)
    }

    fn act(&self, ctx: &Context) -> (r: Result<(), E>) {
        (self.f)(ctx)
    }
}

/// Attaches an action written for context type `A` to an engine whose item
/// type is `Cushion`, through a pure projection `&Cushion -> A`. Wrapping
/// changes only the type an action is addressed as, never what it does.
#[verifier::reject_recursive_types(ActionContext)]
#[verifier::reject_recursive_types(Cushion)]
pub struct ActionWrapper<ActionContext, ActionT, F, Cushion> where
    F: Fn(&Cushion) -> ActionContext,
    ActionT: Action<Context = ActionContext>,
 {
    f: F,
    action: ActionT,
    _marker: core::marker::PhantomData<Cushion>,
}

impl<ActionContext, ActionT, F, Cushion> ActionWrapper<ActionContext, ActionT, F, Cushion> where
    F: Fn(&Cushion) -> ActionContext,
    ActionT: Action<Context = ActionContext>,
 {
    /// The projection from the engine's item type to the action's own.
    pub closed spec fn transformer(&self) -> F {
        self.f
    }

    /// The wrapped action.
    pub closed spec fn inner(&self) -> ActionT {
        self.action
    }

    pub fn new(action: ActionT, transformer: F) -> (r: Self)
        ensures
            r.transformer() == transformer,
            r.inner() == action,
    {
        ActionWrapper { f: transformer, action, _marker: core::marker::PhantomData }
    }
}

impl<ActionContext, ActionT, F, Cushion> Action for ActionWrapper<
    ActionContext,
    ActionT,
    F,
    Cushion,
> where F: Fn(&Cushion) -> ActionContext, ActionT: Action<Context = ActionContext> {
    type Context = Cushion;

    type Error = ActionT::Error;

    open spec fn wf(&self) -> bool {
        &&& self.inner().wf()
        &&& exists|q: spec_fn(Cushion) -> ActionContext| project_fn_models(self.transformer(), q)
    }

    open spec fn admits(&self, ctx: Cushion, r: Result<(), ActionT::Error>) -> bool {
        self.inner().admits(project_spec_of(self.transformer())(ctx), r)
    }

    fn act(&self, ctx: &Cushion) -> (r: Result<(), ActionT::Error>) {
        let projected = (self.f)(ctx);
        proof {
            assert(call_ensures(self.f, (ctx,), projected));
            assert(project_fn_models(
                self.transformer(),
                project_spec_of(self.transformer()),
            ));
            assert(projected == project_spec_of(self.transformer())(*ctx));
        }
        self.action.act(&projected)
    }
}

} // verus!
