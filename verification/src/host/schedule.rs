//! What is done with the subblocks of a block, and which files it leaves.

use vstd::prelude::*;

use crate::host::paths::PathBelow;
use crate::primitives::{decimal, numbered, parse_u64, parsed_u64};

verus! {

/// The public values of the subblocks, as the aggregation reads them.
pub const PUBLIC_VALUES_FILENAME: &'static str = "public_values.bin";

/// The digest of the key that verifies the proofs of the subblocks.
pub const VK_DIGEST_FILENAME: &'static str = "vk_digest.bin";

/// The input of the aggregation.
pub const AGG_INPUT_FILENAME: &'static str = "agg_input.bin";

/// The state root of the parent block.
pub const STATE_ROOT_FILENAME: &'static str = "state_root.bin";

/// What the aggregation program reads, before the proofs of the subblocks are added.
pub const AGGREGATOR_STDIN_FILENAME: &'static str = "aggregator_stdin_builder.bin";

/// What the aggregation program reads.
pub const FINAL_AGGREGATOR_STDIN_FILENAME: &'static str = "final_aggregator_stdin_builder.bin";

/// The name of the directory for a gas limit.
pub open spec fn gas_segment(gas_limit_var: Option<Seq<char>>) -> Seq<char> {
    match gas_limit_var {
        Some(text) => match parsed_u64(text) {
            Some(gas_limit) => "gas"@ + decimal(gas_limit as nat),
            None => "gasUNSET"@,
        },
        None => "gasUNSET"@,
    }
}

/// The directory for the files of a block: below the given directory or else the current one, by
/// block and by the gas limit that the environment sets.
pub fn resolve_dump_dir<P>(
    dump_dir: Option<P>,
    current_dir: P,
    gas_limit_var: Option<String>,
    block_number: u64,
) -> (r: PathBelow<P>)
    ensures
        r.base == (match dump_dir {
            Some(dir) => dir,
            None => current_dir,
        }),
        r.texts() == seq![
            "block"@ + decimal(block_number as nat),
            gas_segment(
                match gas_limit_var {
                    Some(text) => Some(text@),
                    None => None,
                },
            ),
        ],
{
    let gas_limit: Option<u64> = match &gas_limit_var {
        Some(text) => parse_u64(text.as_str()),
        None => None,
    };
    let segment: String = match gas_limit {
        Some(gas_limit) => numbered("gas", gas_limit, ""),
        None => "gasUNSET".to_string(),
    };
    let base: P = match dump_dir {
        Some(dir) => dir,
        None => current_dir,
    };
    let block: String = numbered("block", block_number, "");
    let ghost gas_limit_text = match gas_limit_var {
        Some(text) => Some(text@),
        None => None,
    };
    proof {
        reveal_strlit("");
        assert(block@ =~= "block"@ + decimal(block_number as nat));
        assert(segment@ =~= gas_segment(gas_limit_text));
    }
    let path: PathBelow<P> = PathBelow::new(base).join(block).join(segment);
    assert(path.texts() =~= seq![
        "block"@ + decimal(block_number as nat),
        gas_segment(gas_limit_text),
    ]);
    path
}

/// The name of the file with what the program of a subblock reads.
pub fn subblock_stdin_filename(i: u64) -> (r: String)
    ensures
        r@ == "subblock_stdin_builder_"@ + decimal(i as nat) + ".bin"@,
{
    numbered("subblock_stdin_builder_", i, ".bin")
}

/// One thing to do with the subblocks.
#[derive(Debug, Clone, Copy, PartialEq, Eq, Structural)]
pub enum Action {
    /// Write what the program of the subblock reads to its file.
    WriteSubblock(u64),
    /// Run the program of the subblock.
    EmulateSubblock(u64),
    /// Check that the subblocks aggregate.
    ValidateAggregation,
    /// Write the parts of what the aggregation program reads to their files.
    DumpAggregation,
    /// Write what the aggregation program reads to its file.
    WriteAggregator,
    /// Write what the aggregation program reads, with the proofs.
    WriteFinalAggregator,
    /// Run the aggregation program.
    EmulateAggregator,
}

/// What is done with the first subblocks.
pub open spec fn subblock_actions(count: nat, execute: bool) -> Seq<Action>
    decreases count,
{
    if count == 0 {
        Seq::empty()
    } else {
        let before = subblock_actions((count - 1) as nat, execute);
        let i = (count - 1) as u64;
        if execute {
            before.push(Action::WriteSubblock(i)).push(Action::EmulateSubblock(i))
        } else {
            before.push(Action::WriteSubblock(i))
        }
    }
}

/// What is done after all subblocks.
pub open spec fn aggregation_actions(execute: bool) -> Seq<Action> {
    let written = seq![
        Action::ValidateAggregation,
        Action::DumpAggregation,
        Action::WriteAggregator,
        Action::WriteFinalAggregator,
    ];
    if execute {
        written.push(Action::EmulateAggregator)
    } else {
        written
    }
}

/// Lists what is done with the subblocks of a block, in its order. Programs are run only on
/// request; the aggregation is checked before anything of it is written.
pub fn schedule_subblock_execution(subblock_count: u64, execute: bool) -> (r: Vec<Action>)
    ensures
        r@ == subblock_actions(subblock_count as nat, execute) + aggregation_actions(execute),
{
    let mut actions: Vec<Action> = Vec::new();
    let mut i: u64 = 0;
    while i < subblock_count
        invariant
            i <= subblock_count,
            actions@ == subblock_actions(i as nat, execute),
        decreases subblock_count - i,
    {
        actions.push(Action::WriteSubblock(i));
        if execute {
            actions.push(Action::EmulateSubblock(i));
        }
        i = i + 1;
    }
    let ghost subblocks = actions@;
    actions.push(Action::ValidateAggregation);
    actions.push(Action::DumpAggregation);
    actions.push(Action::WriteAggregator);
    actions.push(Action::WriteFinalAggregator);
    if execute {
        actions.push(Action::EmulateAggregator);
    }
    assert(actions@ =~= subblocks + aggregation_actions(execute));
    actions
}

/// Without a request no program is run.
pub proof fn law_nothing_runs_unasked(count: nat)
    ensures
        forall|i: int|
            0 <= i < subblock_actions(count, false).len() ==> (#[trigger] subblock_actions(
                count,
                false,
            )[i]) is WriteSubblock,
        !aggregation_actions(false).contains(Action::EmulateAggregator),
    decreases count,
{
    if count > 0 {
        law_nothing_runs_unasked((count - 1) as nat);
        let before = subblock_actions((count - 1) as nat, false);
        let all = subblock_actions(count, false);
        assert forall|i: int| 0 <= i < all.len() implies (#[trigger] all[i]) is WriteSubblock by {
            if i < before.len() {
                assert(all[i] == before[i]);
            }
        }
    }
}

/// Joins the serialized input and output of each subblock to its public values. There are none
/// where some subblock lacks an output or an input.
pub fn join_public_values(inputs: &Vec<Vec<u8>>, outputs: &Vec<Vec<u8>>) -> (r: Option<
    Vec<Vec<u8>>,
>)
    ensures
        match r {
            Some(public_values) => {
                &&& inputs@.len() == outputs@.len()
                &&& public_values@.len() == inputs@.len()
                &&& forall|i: int|
                    0 <= i < public_values@.len() ==> (#[trigger] public_values@[i])@
                        == inputs@[i]@ + outputs@[i]@
            },
            None => inputs@.len() != outputs@.len(),
        },
{
    if inputs.len() != outputs.len() {
        return None;
    }
    let mut public_values: Vec<Vec<u8>> = Vec::new();
    let mut i: usize = 0;
    while i < inputs.len()
        invariant
            i <= inputs.len(),
            inputs@.len() == outputs@.len(),
            public_values@.len() == i,
            forall|j: int|
                0 <= j < i ==> (#[trigger] public_values@[j])@ == inputs@[j]@ + outputs@[j]@,
        decreases inputs.len() - i,
    {
        let mut value: Vec<u8> = Vec::new();
        value.extend_from_slice(inputs[i].as_slice());
        value.extend_from_slice(outputs[i].as_slice());
        assert(value@ =~= inputs@[i as int]@ + outputs@[i as int]@);
        public_values.push(value);
        i = i + 1;
    }
    Some(public_values)
}

/// The directory names the gas limit that the environment sets, where it is a number.
pub proof fn law_gas_segment(text: Seq<char>)
    ensures
        gas_segment(None) == "gasUNSET"@,
        parsed_u64(text) is None ==> gas_segment(Some(text)) == "gasUNSET"@,
        parsed_u64(text) is Some ==> gas_segment(Some(text)) == "gas"@ + decimal(
            parsed_u64(text)->0 as nat,
        ),
{
}

/// The subblocks are written one after the other, each once, and where programs are run, each is
/// run directly after it was written.
pub proof fn law_subblocks_in_order(count: nat, i: int)
    requires
        0 <= i < count <= u64::MAX,
    ensures
        subblock_actions(count, false).len() == count,
        subblock_actions(count, false)[i] == Action::WriteSubblock(i as u64),
        subblock_actions(count, true).len() == 2 * count,
        subblock_actions(count, true)[2 * i] == Action::WriteSubblock(i as u64),
        subblock_actions(count, true)[2 * i + 1] == Action::EmulateSubblock(i as u64),
    decreases count,
{
    let before = (count - 1) as nat;
    if i < before {
        law_subblocks_in_order(before, i);
    } else if before > 0 {
        law_subblocks_in_order(before, 0);
    } else {
        assert(subblock_actions(0, false).len() == 0);
        assert(subblock_actions(0, true).len() == 0);
    }
}

/// After the subblocks the aggregation is checked first, then dumped, then written, and run at the
/// very end where programs are run.
pub proof fn law_aggregation_in_order(execute: bool)
    ensures
        ({
            let actions = aggregation_actions(execute);
            &&& actions[0] == Action::ValidateAggregation
            &&& actions[1] == Action::DumpAggregation
            &&& actions[2] == Action::WriteAggregator
            &&& actions[3] == Action::WriteFinalAggregator
            &&& execute ==> actions.len() == 5 && actions[4] == Action::EmulateAggregator
            &&& !execute ==> actions.len() == 4
        }),
{
}

} // verus!
