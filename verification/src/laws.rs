use crate::assembler::parameter_slots;
use crate::builder::CallParamsView;
use crate::layout::{
    head_len, lemma_head_len, lemma_head_len_of_single_words, lemma_tail_len, lemma_whole_words,
};
use crate::parameter::{lemma_encoding_len, ParameterView};
use vstd::prelude::*;

verus! {

/// Number of words that `parameters` take in the head, all together.
pub open spec fn total_head_words(parameters: Seq<ParameterView>) -> nat
    decreases parameters.len(),
{
    if parameters.len() == 0 {
        0
    } else {
        total_head_words(parameters.drop_last()) + parameters.last().head_words()
    }
}

/// Assembling is a function of what was added: whatever two runs over the
/// same parameters return, they return the same bytes.
pub proof fn lemma_assemble_deterministic(params: CallParamsView, first: Seq<u8>, second: Seq<u8>)
    requires
        first == params.assembled(),
        second == params.assembled(),
    ensures
        first == second,
{
}

/// Without parameters, selector and address, nothing is assembled.
pub proof fn lemma_assemble_empty(params: CallParamsView)
    requires
        params.parameters.len() == 0,
        params.selector is None,
        params.address is None,
    ensures
        params.assembled() == Seq::<u8>::empty(),
{
    assert(parameter_slots(params.parameters) =~= Seq::empty());
    assert(params.assembled() =~= Seq::<u8>::empty());
}

/// The head section has one word for each word that a parameter takes in
/// the head.
pub proof fn lemma_head_section_words(params: CallParamsView)
    requires
        params.wf(),
    ensures
        params.head_section().len() == 32 * total_head_words(params.parameters),
{
    let slots = parameter_slots(params.parameters);
    lemma_head_len(slots, head_len(slots));
    lemma_head_len_is_head_words(params.parameters);
}

proof fn lemma_head_len_is_head_words(parameters: Seq<ParameterView>)
    requires
        forall|i: int| 0 <= i < parameters.len() ==> (#[trigger] parameters[i]).wf(),
    ensures
        head_len(parameter_slots(parameters)) == 32 * total_head_words(parameters),
    decreases parameters.len(),
{
    if parameters.len() > 0 {
        let before = parameters.drop_last();
        assert forall|i: int| 0 <= i < before.len() implies (#[trigger] before[i]).wf() by {
            assert(before[i] == parameters[i]);
        }
        lemma_head_len_is_head_words(before);
        assert(parameter_slots(parameters).drop_last() =~= parameter_slots(before));
        assert(parameters.last() == parameters[parameters.len() - 1]);
        lemma_encoding_len(parameters.last());
    }
}

/// Where every parameter takes one word in the head, as all do but a static
/// array that holds no element or several, the head section has exactly 32
/// bytes for each parameter.
pub proof fn lemma_head_section_len(params: CallParamsView)
    requires
        params.wf(),
        forall|i: int|
            0 <= i < params.parameters.len() ==> (#[trigger] params.parameters[i]).head_words()
                == 1,
    ensures
        params.head_section().len() == 32 * params.parameters.len(),
{
    let slots = parameter_slots(params.parameters);
    assert forall|i: int| 0 <= i < slots.len() implies (#[trigger] slots[i]).head_size() == 32 by {
        assert(params.parameters[i].wf());
        assert(params.parameters[i].head_words() == 1);
        lemma_encoding_len(params.parameters[i]);
    }
    lemma_head_len_of_single_words(slots);
    lemma_head_len(slots, head_len(slots));
}

/// What is assembled is the prefix followed by whole words: the head
/// section and the tail section each take a multiple of 32 bytes.
pub proof fn lemma_assembled_len(params: CallParamsView)
    requires
        params.wf(),
    ensures
        params.assembled().len() == params.prefix().len() + params.head_section().len()
            + params.tail_section().len(),
        params.head_section().len() % 32 == 0,
        params.tail_section().len() % 32 == 0,
{
    let slots = parameter_slots(params.parameters);
    assert forall|i: int| 0 <= i < slots.len() implies (#[trigger] slots[i]).bytes.len() % 32
        == 0 by {
        assert(params.parameters[i].wf());
        lemma_encoding_len(params.parameters[i]);
    }
    lemma_whole_words(slots);
    lemma_head_len(slots, head_len(slots));
    lemma_tail_len(slots);
}

} // verus!
