//! Model evaluation state: a growing set of previous models that
//! candidate players are matched against.

use vstd::prelude::*;

verus! {

use crate::player::Player;

/// Evaluator for a set of candidate models. Candidates are scored by
/// running games against a random player, a minimax player and the set of
/// previous models held here; running those games and averaging the
/// scores is the harness's concern, this type owns the set.
#[derive(Debug)]
pub struct PlayerPlusEvaluator<Model: Player + Clone> {
    /// Set of previous models to also test against.
    previous: Vec<Model>,
}

impl<Model: Player + Clone> PlayerPlusEvaluator<Model> {
    /// The previous models, as a spec-level sequence.
    pub closed spec fn spec_previous(self) -> Seq<Model> {
        self.previous@
    }

    /// The set of previous models, in the order they were added.
    #[must_use]
    pub fn previous(&self) -> (r: &Vec<Model>)
        ensures
            r@ == self.spec_previous(),
    {
        &self.previous
    }

    /// Add a "previous" model to the set so that it is used in evaluation.
    #[must_use]
    pub fn with_model(self, model: Model) -> (r: Self)
        ensures
            r.spec_previous() == self.spec_previous().push(model),
    {
        let mut this = self;
        this.previous.push(model);
        this
    }

    /// Add a "previous" model to the set so that it is used in evaluation.
    pub fn add_model(&mut self, model: Model) -> (r: &mut Self)
        ensures
            (*r).spec_previous() == old(self).spec_previous().push(model),
            *final(self) == *final(r),
    {
        self.previous.push(model);
        self
    }
}

impl<Model: Player + Clone> Default for PlayerPlusEvaluator<Model> {
    /// Make an evaluator with no previous models.
    fn default() -> (r: Self)
        ensures
            r.spec_previous() == Seq::<Model>::empty(),
    {
        PlayerPlusEvaluator { previous: Vec::new() }
    }
}

} // verus!
