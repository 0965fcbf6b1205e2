//! Changes of the state of a widget that are carried out later.

use crate::gui::BuildContext;
use vstd::prelude::*;

verus! {

/// Something that changes components at the entity of a build context.
pub trait Transaction: Send + Sync {
    /// What the change promises about the context after it, given the
    /// context before it: nothing, unless the change says otherwise.
    open spec fn effect(&self, before: BuildContext<'_>, after: BuildContext<'_>) -> bool {
        true
    }

    fn run(&self, context: &mut BuildContext<'_>)
        ensures
            self.effect(*old(context), *final(context)),
    ;
}

/// A change of state that waits to be carried out.
pub struct StateTransaction {
    /// The change. A value made by [`StateTransaction::new`] always
    /// holds one; the `Option` keeps the boxed change, in specifications,
    /// the very value that `new` was given.
    func: Option<Box<dyn Transaction>>,
}

impl StateTransaction {
    /// The change that is carried out.
    pub closed spec fn change(&self) -> Option<Box<dyn Transaction>> {
        self.func
    }

    /// The change, ready to be carried out.
    pub fn new(func: Box<dyn Transaction>) -> (r: Self)
        ensures
            r.change() == Some(func),
    {
        let held = Some(func);
        StateTransaction { func: held }
    }

    /// Carries the change out at the entity of the context: the context
    /// changes as the change itself says.
    pub fn run(&self, context: &mut BuildContext<'_>)
        ensures
            self.change() matches Some(f) ==> f.effect(*old(context), *final(context)),
            self.change() is None ==> *final(context) == *old(context),
    {
        match &self.func {
            Some(f) => {
                f.run(context);
            },
            None => {},
        }
    }
}

} // verus!
