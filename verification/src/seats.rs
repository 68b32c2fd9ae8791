use vstd::prelude::*;
use crate::q_agent::QLearningAgent;

verus! {

/// The agents of a session, one for each seat, kept in an `ndarray::Array1`.
///
/// Nothing is known of them but what the functions below say.
#[verifier::external_body]
pub struct Agents {
    seats: ndarray::Array1<QLearningAgent>,
}

/// The agents in their order.
pub uninterp spec fn agents_of(agents: Agents) -> Seq<QLearningAgent>;

impl Agents {
    /// `ndarray::ArrayBase::from_vec`: a one-dimensional array that holds the
    /// items of the vector in their order.
    #[verifier::external_body]
    pub(crate) fn from_vec(agents: Vec<QLearningAgent>) -> (seats: Agents)
        ensures
            agents_of(seats) == agents@,
    {
        Agents { seats: ndarray::Array1::from_vec(agents) }
    }

    /// Indexing a one-dimensional `ndarray` array: the item at `i`. The index
    /// panics outside the array, which `requires` leaves out.
    #[verifier::external_body]
    pub(crate) fn get(&self, i: usize) -> (agent: &QLearningAgent)
        requires
            i < agents_of(*self).len(),
        ensures
            *agent == agents_of(*self)[i as int],
    {
        &self.seats[i]
    }

    /// Indexing a one-dimensional `ndarray` array to change an item: the item
    /// at `i` is handed out, and what becomes of it is the item at `i`
    /// afterwards, with every other item as before. The index panics outside
    /// the array, which `requires` leaves out.
    #[verifier::external_body]
    pub(crate) fn get_mut(&mut self, i: usize) -> (agent: &mut QLearningAgent)
        requires
            i < agents_of(*old(self)).len(),
        ensures
            *agent == agents_of(*old(self))[i as int],
            agents_of(*final(self)) == agents_of(*old(self)).update(i as int, *final(agent)),
    {
        &mut self.seats[i]
    }
}

} // verus!
