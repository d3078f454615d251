use vstd::prelude::*;
use crate::data::{Data, DataView, refs_below};
use crate::runtime::{ExpressionRuntime, RuntimeError, RuntimeView, symbol_name, expression_index};
use crate::access::{KeyId, find_key};
use crate::context::ExpressionContext;

verus! {

/// Where resolving a symbol finds its value.
pub enum Resolution {
    /// The symbol has no name: nothing is added.
    Nothing,
    /// A value associated with the symbol in the current input list.
    Existing(usize),
    /// The expression registered under the symbol's name.
    Expression(usize),
    /// The context decides the value for the name.
    Context(Seq<char>),
}

/// The association keyed by `sym` in the current input, when the input is a list.
pub open spec fn input_association(v: RuntimeView, sym: u64) -> Option<usize> {
    if v.inputs.len() > 0 {
        match v.data[v.inputs.last() as int] {
            DataView::List(_, keys) => find_key(v.data, keys, KeyId::Symbol(sym)),
            _ => None,
        }
    } else {
        None
    }
}

/// How the symbol `sym` resolves: by the current input list's association for it,
/// then by the expression of its name, then by the context.
pub open spec fn resolution(v: RuntimeView, sym: u64) -> Resolution {
    match symbol_name(v.symbols, sym) {
        None => Resolution::Nothing,
        Some(name) => match input_association(v, sym) {
            Some(k) => Resolution::Existing(v.data[k as int]->Pair_1),
            None => match expression_index(v.expression_names, name) {
                Some(i) => Resolution::Expression(i),
                None => Resolution::Context(name),
            },
        },
    }
}

impl ExpressionRuntime {
    /// Resolves the symbol `sym` and refers a new last register to its value. Only when
    /// neither the current input nor an expression gives one is the context asked, with
    /// the symbol's name; its answer is stored.
    pub fn resolve<C: ExpressionContext>(&mut self, sym: u64, context: &C) -> (r: Result<(), RuntimeError>)
        requires
            old(self)@.wf(),
            old(self)@.data.len() + 1 < usize::MAX,
        ensures
            final(self)@.wf(),
            match resolution(old(self)@, sym) {
                Resolution::Nothing => r is Ok && final(self)@ == old(self)@,
                Resolution::Existing(p) => r is Ok && final(self)@ == old(self)@.with_register(p),
                Resolution::Expression(i) => r is Ok && final(self)@ == old(self)@.with_pushed(DataView::Expression(i)),
                Resolution::Context(name) => exists|d: DataView| #[trigger] context.resolves_to(name, d)
                    && (if refs_below(d, old(self)@.data.len() as int) {
                        r is Ok && final(self)@ == old(self)@.with_pushed(d)
                    } else {
                        r == Err::<(), RuntimeError>(RuntimeError::InvalidReference) && final(self)@ == old(self)@
                    }),
            },
    {
        let name = match self.symbol_name_ref(sym) {
            None => return Ok(()),
            Some(n) => n.clone(),
        };
        if self.input_count() > 0 {
            let input = self.current_input();
            proof {
                assert(old(self)@.inputs[old(self)@.inputs.len() - 1] < old(self)@.data.len());
            }
            if let Data::List(_, keys) = self.get_data(input) {
                let found = self.find_symbol_key_of(keys, sym);
                proof {
                    crate::access::lemma_find_key_matches(self@.data, keys@, KeyId::Symbol(sym));
                }
                if let Some(k) = found {
                    proof {
                        crate::runtime::lemma_value_refs(self@, k as int);
                    }
                    if let Data::Pair(_, b) = self.get_data(k) {
                        let b = *b;
                        self.push_register(b);
                        return Ok(());
                    }
                }
            }
        }
        match self.get_expression_index(&name) {
            Some(i) => {
                self.push_value(Data::Expression(i));
                Ok(())
            },
            None => {
                let d = context.resolve(&name);
                let ghost dv = d@;
                let r = self.copy_into(d);
                proof {
                    let nm = symbol_name(old(self)@.symbols, sym)->Some_0;
                    assert(nm == name@);
                    assert(context.resolves_to(nm, dv));
                    assert(resolution(old(self)@, sym) == Resolution::Context(nm));
                    assert(match resolution(old(self)@, sym) { Resolution::Context(n) => n == nm, _ => false });
                    assert(match resolution(old(self)@, sym) { Resolution::Context(n) => context.resolves_to(n, dv), _ => false });
                    assert(exists|e: DataView| #[trigger] context.resolves_to(nm, e) && (if refs_below(e, old(self)@.data.len() as int) {
                        r is Ok && final(self)@ == old(self)@.with_pushed(e)
                    } else {
                        r == Err::<(), RuntimeError>(RuntimeError::InvalidReference) && final(self)@ == old(self)@
                    }));
                }
                r
            },
        }
    }
}

} // verus!
