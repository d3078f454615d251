use vstd::prelude::*;
use crate::data::{Data, DataView};
use crate::runtime::{ExpressionRuntime, RuntimeError, RuntimeView};

verus! {

/// What a script's surroundings provide: values for names the runtime cannot
/// resolve, and the methods that external method values stand for.
pub trait ExpressionContext {
    /// Whether `d` is a value this context gives for the name `name`. A context that
    /// states nothing of its answers admits every value.
    closed spec fn resolves_to(&self, name: Seq<char>, d: DataView) -> bool {
        true
    }

    /// Whether `d` is a value this context's method `name` gives for the input stored
    /// at `input` in a runtime whose view is `runtime`. A context that states nothing
    /// of its answers admits every value.
    closed spec fn executes_to(&self, name: Seq<char>, runtime: RuntimeView, input: usize, d: DataView) -> bool {
        true
    }

    /// The value for `name`. Positions it holds refer to values of the runtime.
    fn resolve(&self, name: &String) -> (d: Data)
        ensures
            self.resolves_to(name@, d@);

    /// The value the method `name` gives for the input stored at `input` in `runtime`.
    fn execute(&self, name: &String, runtime: &ExpressionRuntime, input: usize) -> (d: Data)
        ensures
            self.executes_to(name@, runtime@, input, d@);
}

/// A context that resolves every name, and answers every method, with unit.
pub struct DefaultContext {}

/// The context that resolves and answers everything with unit.
pub fn default_expression_context() -> (c: DefaultContext)
    ensures
        c == (DefaultContext {}),
{
    DefaultContext {}
}

impl ExpressionContext for DefaultContext {
    open spec fn resolves_to(&self, name: Seq<char>, d: DataView) -> bool {
        d == DataView::Unit
    }

    open spec fn executes_to(&self, name: Seq<char>, runtime: RuntimeView, input: usize, d: DataView) -> bool {
        d == DataView::Unit
    }

    fn resolve(&self, _name: &String) -> (d: Data)
        ensures
            d@ == DataView::Unit,
    {
        Data::Unit
    }

    fn execute(&self, _name: &String, _runtime: &ExpressionRuntime, _input: usize) -> (d: Data)
        ensures
            d@ == DataView::Unit,
    {
        Data::Unit
    }
}

impl ExpressionRuntime {
    /// Stores a value given from outside and refers a new last register to it; fails,
    /// changing nothing, when it holds positions of values that do not exist.
    pub fn copy_into(&mut self, d: Data) -> (r: Result<(), RuntimeError>)
        requires
            old(self)@.wf(),
            old(self)@.data.len() + 1 < usize::MAX,
        ensures
            final(self)@.wf(),
            crate::data::refs_below(d@, old(self)@.data.len() as int) ==> r is Ok && final(self)@ == old(self)@.with_pushed(d@),
            !crate::data::refs_below(d@, old(self)@.data.len() as int) ==> r == Err::<(), RuntimeError>(RuntimeError::InvalidReference)
                && final(self)@ == old(self)@,
    {
        if d.has_refs_below(self.data_len()) {
            self.push_value(d);
            Ok(())
        } else {
            Err(RuntimeError::InvalidReference)
        }
    }
}

} // verus!
