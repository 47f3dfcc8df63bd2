//! Resolution: the step that turns a record identifier into a concrete value.
//!
//! Evaluating a deferred identifier is the caller's work. The library says
//! what there is to evaluate and builds the value from what came of it.

use crate::id::{Gen, Id, IdView};
use crate::thing::{Thing, ThingView};
use vstd::prelude::*;

verus! {

/// A value of the expression language, as far as record identifiers need it.
#[derive(Debug, PartialEq, Eq)]
pub enum Value {
    Null,
    Thing(Thing),
}

/// The mathematical value of a `Value`.
pub enum ValueView {
    Null,
    Thing(ThingView),
}

impl View for Value {
    type V = ValueView;

    open spec fn view(&self) -> ValueView {
        match self {
            Value::Null => ValueView::Null,
            Value::Thing(t) => ValueView::Thing(t@),
        }
    }
}

/// What resolving a record identifier comes to before anything is evaluated.
#[derive(Debug, PartialEq, Eq)]
pub enum Step {
    /// Nothing is deferred: this is the value.
    Done(Value),
    /// The identifier is deferred: it is for the caller to generate it and
    /// to hand the outcome to `Thing::computed`.
    Evaluate(Gen),
}

impl Thing {
    /// Starts the resolution. A record identifier with nothing deferred
    /// resolves to itself, wrapped in a value; for a deferred identifier the
    /// generator to run is handed out.
    pub fn compute(&self) -> (r: Step)
        ensures
            self@.id.is_concrete() ==> (r matches Step::Done(v) && v@ == ValueView::Thing(self@)),
            self@.id matches IdView::Generate(g) ==> r == Step::Evaluate(g),
    {
        match &self.id {
            Id::Generate(g) => Step::Evaluate(*g),
            _ => Step::Done(Value::Thing(self.clone())),
        }
    }

    /// Ends the resolution with the outcome of evaluating the identifier:
    /// the table is carried over and the identifier is the one that came
    /// out; a failure is handed on as it is.
    pub fn computed<E>(&self, outcome: Result<Id, E>) -> (r: Result<Value, E>)
        ensures
            match outcome {
                Ok(id) => (r matches Ok(v) && v@ == ValueView::Thing(
                    ThingView { tb: self@.tb, id: id@ },
                )),
                Err(e) => (r matches Err(f) && f == e),
            },
    {
        match outcome {
            Ok(id) => Ok(Value::Thing(Thing { tb: self.tb.clone(), id })),
            Err(e) => Err(e),
        }
    }
}

} // verus!
