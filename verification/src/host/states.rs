//! The states between the subblocks of a block.

use vstd::prelude::*;

use crate::data::{push_item, Data};
use crate::host::check::check_pruned;
use crate::host::error::HostError;
use crate::primitives::B256;

verus! {

/// The state roots before, between and after subblocks, and the pruned parent state of each
/// subblock.
#[derive(Debug)]
pub struct SubblockStates {
    roots: Vec<B256>,
    pruned_roots: Vec<B256>,
    parent_states: Vec<Vec<u8>>,
}

/// The model of [`SubblockStates`].
pub struct SubblockStatesModel {
    /// The root of the parent state of the block, and that of the state after each subblock.
    pub roots: Seq<B256>,
    /// The root of each pruned parent state.
    pub pruned_roots: Seq<B256>,
    /// The pruned parent states in their serialized form.
    pub parent_states: Seq<Seq<u8>>,
}

impl SubblockStatesModel {
    /// There is one pruned state for each subblock, and its root is that of the state that the
    /// subblock starts from: pruning has kept it.
    pub open spec fn is_chain(self) -> bool {
        &&& self.roots.len() == self.parent_states.len() + 1
        &&& self.pruned_roots.len() == self.parent_states.len()
        &&& forall|i: int|
            0 <= i < self.pruned_roots.len() ==> #[trigger] self.pruned_roots[i] == self.roots[i]
    }

    /// The states with one more subblock.
    pub open spec fn with_state(
        self,
        pruned_root: B256,
        parent_state: Seq<u8>,
        output_root: B256,
    ) -> SubblockStatesModel {
        SubblockStatesModel {
            roots: self.roots.push(output_root),
            pruned_roots: self.pruned_roots.push(pruned_root),
            parent_states: self.parent_states.push(parent_state),
        }
    }
}

impl SubblockStates {
    #[verifier::type_invariant]
    spec fn is_chain(self) -> bool {
        self.model().is_chain()
    }

    /// The model of the states.
    pub closed spec fn model(&self) -> SubblockStatesModel {
        SubblockStatesModel {
            roots: self.roots@,
            pruned_roots: self.pruned_roots@,
            parent_states: self.parent_states.model(),
        }
    }

    /// Starts with the root of the parent state of the block.
    pub fn new(parent_root: B256) -> (r: Self)
        ensures
            r.model() == (SubblockStatesModel {
                roots: seq![parent_root],
                pruned_roots: Seq::empty(),
                parent_states: Seq::empty(),
            }),
    {
        let mut roots: Vec<B256> = Vec::new();
        roots.push(parent_root);
        let parent_states: Vec<Vec<u8>> = Vec::new();
        assert(roots@ =~= seq![parent_root]);
        assert(parent_states.model() =~= Seq::<Seq<u8>>::empty());
        SubblockStates { roots, pruned_roots: Vec::new(), parent_states }
    }

    /// The number of subblocks.
    pub fn len(&self) -> (r: usize)
        ensures
            r == self.model().parent_states.len(),
    {
        self.parent_states.len()
    }

    /// Adds the next subblock: its pruned parent state with the root of it, and the root of the
    /// state after the subblock. Pruning must not have changed the root.
    pub fn add_state(
        self,
        pruned_root: B256,
        parent_state: Vec<u8>,
        output_root: B256,
    ) -> (r: Result<Self, HostError>)
        ensures
            self.model().is_chain(),
            match r {
                Ok(states) => {
                    &&& pruned_root == self.model().roots.last()
                    &&& states.model() == self.model().with_state(
                        pruned_root,
                        parent_state@,
                        output_root,
                    )
                },
                Err(HostError::PrunedStateRootMismatch(before, pruned)) => {
                    &&& before == self.model().roots.last()
                    &&& pruned == pruned_root
                    &&& before != pruned
                },
                Err(_) => false,
            },
    {
        proof {
            use_type_invariant(&self);
        }
        let ghost before = self.model();
        let mut roots: Vec<B256> = self.roots;
        let mut pruned_roots: Vec<B256> = self.pruned_roots;
        let mut parent_states: Vec<Vec<u8>> = self.parent_states;
        match check_pruned(roots[roots.len() - 1], pruned_root) {
            Ok(()) => {},
            Err(error) => {
                return Err(error);
            },
        }
        proof {
            crate::data::lemma_bytes_model(&parent_state);
        }
        roots.push(output_root);
        pruned_roots.push(pruned_root);
        push_item(&mut parent_states, parent_state);
        proof {
            let after = before.with_state(pruned_root, parent_state@, output_root);
            assert forall|i: int| 0 <= i < after.pruned_roots.len() implies #[trigger]
                after.pruned_roots[i] == after.roots[i] by {
                if i < before.pruned_roots.len() {
                    assert(before.pruned_roots[i] == before.roots[i]);
                }
            }
        }
        Ok(SubblockStates { roots, pruned_roots, parent_states })
    }

    /// Returns the roots and the pruned parent states.
    pub fn into_parts(self) -> (r: (Vec<B256>, Vec<Vec<u8>>))
        ensures
            r.0@ == self.model().roots,
            r.1.model() == self.model().parent_states,
            self.model().is_chain(),
    {
        proof {
            use_type_invariant(&self);
        }
        (self.roots, self.parent_states)
    }
}

/// One more subblock adds its root, its pruned root and its pruned state behind the others. In a
/// chain every pruned state has the root of the state that it was pruned from.
pub proof fn law_states_grow(
    states: SubblockStatesModel,
    pruned_root: B256,
    parent_state: Seq<u8>,
    output_root: B256,
    i: int,
)
    ensures
        ({
            let after = states.with_state(pruned_root, parent_state, output_root);
            &&& after.roots == states.roots.push(output_root)
            &&& after.pruned_roots == states.pruned_roots.push(pruned_root)
            &&& after.parent_states == states.parent_states.push(parent_state)
        }),
        states.is_chain() && 0 <= i < states.parent_states.len() ==> states.pruned_roots[i]
            == states.roots[i],
        states.is_chain() ==> states.roots.len() == states.parent_states.len() + 1,
        states.is_chain() ==> states.pruned_roots.len() == states.parent_states.len(),
{
}

} // verus!
