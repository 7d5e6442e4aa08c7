use crate::word::{encode_unsigned, int_word, lemma_be_bytes_len, push_bytes};
use vstd::prelude::*;

verus! {

/// An encoded value that waits for its place in a sequence of values.
///
/// A static value stands in the head itself. A dynamic value stands in the
/// tail, and the head holds one word with the offset at which it starts.
#[derive(Debug)]
pub struct Slot {
    pub dynamic: bool,
    pub bytes: Vec<u8>,
}

/// The mathematical content of a [`Slot`].
pub struct SlotView {
    pub dynamic: bool,
    pub bytes: Seq<u8>,
}

impl View for Slot {
    type V = SlotView;

    open spec fn view(&self) -> SlotView {
        SlotView { dynamic: self.dynamic, bytes: self.bytes@ }
    }
}

/// The contents of each slot of `slots`, in order.
pub open spec fn slot_views(slots: Seq<Slot>) -> Seq<SlotView> {
    Seq::new(slots.len(), |i: int| slots[i]@)
}

impl SlotView {
    /// Number of bytes the slot takes in the head.
    pub open spec fn head_size(self) -> nat {
        if self.dynamic {
            32
        } else {
            self.bytes.len()
        }
    }

    /// Number of bytes the slot takes in the tail.
    pub open spec fn tail_size(self) -> nat {
        if self.dynamic {
            self.bytes.len()
        } else {
            0
        }
    }
}

/// Length of the head of `slots`.
pub open spec fn head_len(slots: Seq<SlotView>) -> nat
    decreases slots.len(),
{
    if slots.len() == 0 {
        0
    } else {
        head_len(slots.drop_last()) + slots.last().head_size()
    }
}

/// Length of the tail of `slots`.
pub open spec fn tail_len(slots: Seq<SlotView>) -> nat
    decreases slots.len(),
{
    if slots.len() == 0 {
        0
    } else {
        tail_len(slots.drop_last()) + slots.last().tail_size()
    }
}

/// The head of `slots` when the tail begins `tail_start` bytes after the
/// start of the head: each static value as it is, and for each dynamic value
/// the word holding the offset of its bytes.
pub open spec fn head(slots: Seq<SlotView>, tail_start: nat) -> Seq<u8>
    decreases slots.len(),
{
    if slots.len() == 0 {
        Seq::empty()
    } else {
        let before = slots.drop_last();
        let last = slots.last();
        head(before, tail_start) + if last.dynamic {
            int_word((tail_start + tail_len(before)) as int)
        } else {
            last.bytes
        }
    }
}

/// The tail of `slots`: the bytes of its dynamic values, in order.
pub open spec fn tail(slots: Seq<SlotView>) -> Seq<u8>
    decreases slots.len(),
{
    if slots.len() == 0 {
        Seq::empty()
    } else {
        let last = slots.last();
        tail(slots.drop_last()) + if last.dynamic {
            last.bytes
        } else {
            Seq::empty()
        }
    }
}

/// The encoding of a sequence of values: its head, then its tail, the
/// offsets in the head counted from the start of the head.
pub open spec fn tuple_encoding(slots: Seq<SlotView>) -> Seq<u8> {
    head(slots, head_len(slots)) + tail(slots)
}

/// The head is as long as `head_len` says, wherever the tail begins.
pub proof fn lemma_head_len(slots: Seq<SlotView>, tail_start: nat)
    ensures
        head(slots, tail_start).len() == head_len(slots),
    decreases slots.len(),
{
    if slots.len() > 0 {
        lemma_head_len(slots.drop_last(), tail_start);
        lemma_be_bytes_len((tail_start + tail_len(slots.drop_last())) as int, 32);
    }
}

/// The tail is as long as `tail_len` says.
pub proof fn lemma_tail_len(slots: Seq<SlotView>)
    ensures
        tail(slots).len() == tail_len(slots),
    decreases slots.len(),
{
    if slots.len() > 0 {
        lemma_tail_len(slots.drop_last());
    }
}

/// An encoding is as long as its head and its tail together.
pub proof fn lemma_tuple_encoding_len(slots: Seq<SlotView>)
    ensures
        tuple_encoding(slots).len() == head_len(slots) + tail_len(slots),
{
    lemma_head_len(slots, head_len(slots));
    lemma_tail_len(slots);
}

/// Where every slot takes one word in the head, the head has 32 bytes for
/// each slot.
pub proof fn lemma_head_len_of_single_words(slots: Seq<SlotView>)
    requires
        forall|i: int| 0 <= i < slots.len() ==> (#[trigger] slots[i]).head_size() == 32,
    ensures
        head_len(slots) == 32 * slots.len(),
    decreases slots.len(),
{
    if slots.len() > 0 {
        let before = slots.drop_last();
        assert forall|i: int| 0 <= i < before.len() implies (#[trigger] before[i]).head_size()
            == 32 by {
            assert(before[i] == slots[i]);
        }
        lemma_head_len_of_single_words(before);
    }
}

/// Where every slot is static, the encoding is the slots' bytes one after
/// another, and the tail is empty.
pub proof fn lemma_tuple_encoding_of_statics(slots: Seq<SlotView>, tail_start: nat)
    requires
        forall|i: int| 0 <= i < slots.len() ==> !(#[trigger] slots[i]).dynamic,
    ensures
        tail(slots) == Seq::<u8>::empty(),
        tail_len(slots) == 0,
        head(slots, tail_start) == slots.map_values(|s: SlotView| s.bytes).flatten(),
    decreases slots.len(),
{
    lemma_head_of_statics(slots, tail_start);
    slots.map_values(|s: SlotView| s.bytes).lemma_flatten_and_flatten_alt_are_equivalent();
}

proof fn lemma_head_of_statics(slots: Seq<SlotView>, tail_start: nat)
    requires
        forall|i: int| 0 <= i < slots.len() ==> !(#[trigger] slots[i]).dynamic,
    ensures
        tail(slots) == Seq::<u8>::empty(),
        tail_len(slots) == 0,
        head(slots, tail_start) == slots.map_values(|s: SlotView| s.bytes).flatten_alt(),
    decreases slots.len(),
{
    let parts = slots.map_values(|s: SlotView| s.bytes);
    if slots.len() > 0 {
        let before = slots.drop_last();
        assert forall|i: int| 0 <= i < before.len() implies !(#[trigger] before[i]).dynamic by {
            assert(before[i] == slots[i]);
        }
        lemma_head_of_statics(before, tail_start);
        assert(parts.drop_last() =~= before.map_values(|s: SlotView| s.bytes));
        assert(tail(slots) =~= Seq::<u8>::empty());
    }
}

/// Slot `i` stands in the head after the slots before it: a static slot
/// with its bytes, a dynamic one with the word that holds its offset.
pub proof fn lemma_head_at(slots: Seq<SlotView>, tail_start: nat, i: int)
    requires
        0 <= i < slots.len(),
    ensures
        head_len(slots.take(i)) + slots[i].head_size() <= head_len(slots),
        head(slots, tail_start).subrange(
            head_len(slots.take(i)) as int,
            (head_len(slots.take(i)) + slots[i].head_size()) as int,
        ) == if slots[i].dynamic {
            int_word((tail_start + tail_len(slots.take(i))) as int)
        } else {
            slots[i].bytes
        },
    decreases slots.len(),
{
    let before = slots.drop_last();
    let part = if slots[i].dynamic {
        int_word((tail_start + tail_len(slots.take(i))) as int)
    } else {
        slots[i].bytes
    };
    let at = head_len(slots.take(i)) as int;
    lemma_head_len(before, tail_start);
    lemma_be_bytes_len((tail_start + tail_len(slots.take(i))) as int, 32);
    if i == slots.len() - 1 {
        assert(slots.take(i) =~= before);
        assert(head(slots, tail_start).subrange(at, at + slots[i].head_size()) =~= part);
    } else {
        assert(before.take(i) =~= slots.take(i));
        assert(before[i] == slots[i]);
        lemma_head_at(before, tail_start, i);
        assert(head(slots, tail_start).subrange(at, at + slots[i].head_size()) =~= head(
            before,
            tail_start,
        ).subrange(at, at + slots[i].head_size()));
    }
}

/// The bytes of a dynamic slot `i` stand in the tail after those of the
/// dynamic slots before it.
pub proof fn lemma_tail_at(slots: Seq<SlotView>, i: int)
    requires
        0 <= i < slots.len(),
        slots[i].dynamic,
    ensures
        tail_len(slots.take(i)) + slots[i].bytes.len() <= tail_len(slots),
        tail(slots).subrange(
            tail_len(slots.take(i)) as int,
            (tail_len(slots.take(i)) + slots[i].bytes.len()) as int,
        ) == slots[i].bytes,
    decreases slots.len(),
{
    let before = slots.drop_last();
    let at = tail_len(slots.take(i)) as int;
    lemma_tail_len(before);
    if i == slots.len() - 1 {
        assert(slots.take(i) =~= before);
        assert(tail(slots).subrange(at, at + slots[i].bytes.len()) =~= slots[i].bytes);
    } else {
        assert(before.take(i) =~= slots.take(i));
        assert(before[i] == slots[i]);
        lemma_tail_at(before, i);
        assert(tail(slots).subrange(at, at + slots[i].bytes.len()) =~= tail(before).subrange(
            at,
            at + slots[i].bytes.len(),
        ));
    }
}

/// The offset in the head of a dynamic slot is the place of its bytes,
/// counted from the start of the encoding.
pub proof fn lemma_offset_points_at_value(slots: Seq<SlotView>, i: int)
    requires
        0 <= i < slots.len(),
        slots[i].dynamic,
    ensures
        ({
            let encoding = tuple_encoding(slots);
            let word_at = head_len(slots.take(i)) as int;
            let offset = head_len(slots) + tail_len(slots.take(i));
            &&& word_at + 32 <= head_len(slots)
            &&& offset + slots[i].bytes.len() <= encoding.len()
            &&& encoding.subrange(word_at, word_at + 32) == int_word(offset as int)
            &&& encoding.subrange(offset as int, (offset + slots[i].bytes.len()) as int) == slots[i].bytes
        }),
{
    let encoding = tuple_encoding(slots);
    let word_at = head_len(slots.take(i)) as int;
    let offset = head_len(slots) + tail_len(slots.take(i));
    lemma_head_at(slots, head_len(slots), i);
    lemma_tail_at(slots, i);
    lemma_head_len(slots, head_len(slots));
    lemma_tail_len(slots);
    assert(encoding.subrange(word_at, word_at + 32) =~= head(slots, head_len(slots)).subrange(
        word_at,
        word_at + 32,
    ));
    assert(encoding.subrange(offset as int, (offset + slots[i].bytes.len()) as int) =~= tail(
        slots,
    ).subrange(
        tail_len(slots.take(i)) as int,
        (tail_len(slots.take(i)) + slots[i].bytes.len()) as int,
    ));
}

/// Where every slot holds a whole number of words, so do the head, the
/// tail and the encoding.
pub proof fn lemma_whole_words(slots: Seq<SlotView>)
    requires
        forall|i: int| 0 <= i < slots.len() ==> (#[trigger] slots[i]).bytes.len() % 32 == 0,
    ensures
        head_len(slots) % 32 == 0,
        tail_len(slots) % 32 == 0,
        tuple_encoding(slots).len() % 32 == 0,
    decreases slots.len(),
{
    if slots.len() > 0 {
        let before = slots.drop_last();
        assert forall|i: int| 0 <= i < before.len() implies (#[trigger] before[i]).bytes.len() % 32
            == 0 by {
            assert(before[i] == slots[i]);
        }
        lemma_whole_words(before);
        assert(slots.last() == slots[slots.len() - 1]);
    }
    lemma_tuple_encoding_len(slots);
}

/// Lays out a sequence of encoded values: the head, with an offset word for
/// each dynamic value, followed by the tail.
pub fn lay_out(slots: &Vec<Slot>) -> (out: Vec<u8>)
    ensures
        out@ == tuple_encoding(slot_views(slots@)),
{
    let ghost views: Seq<SlotView> = slot_views(slots@);
    let n: usize = slots.len();
    let mut tail_start: u128 = 0;
    let mut i: usize = 0;
    while i < n
        invariant
            i <= n,
            n == slots@.len(),
            views == slot_views(slots@),
            tail_start == head_len(views.take(i as int)),
            tail_start <= i * 0xFFFF_FFFF_FFFF_FFFF,
        decreases n - i,
    {
        let size: u128 = if slots[i].dynamic {
            32
        } else {
            slots[i].bytes.len() as u128
        };
        proof {
            assert(views.take(i + 1).drop_last() =~= views.take(i as int));
            assert(views.take(i + 1).last() == slots@[i as int]@);
            assert((i + 1) * 0xFFFF_FFFF_FFFF_FFFF == i * 0xFFFF_FFFF_FFFF_FFFF
                + 0xFFFF_FFFF_FFFF_FFFF) by (nonlinear_arith);
            assert(i * 0xFFFF_FFFF_FFFF_FFFF <= 0xFFFF_FFFF_FFFF_FFFE * 0xFFFF_FFFF_FFFF_FFFF)
                by (nonlinear_arith)
                requires
                    0 <= i <= 0xFFFF_FFFF_FFFF_FFFE,
            ;
        }
        tail_start = tail_start + size;
        i += 1;
    }
    assert(views.take(n as int) =~= views);
    let mut out: Vec<u8> = Vec::new();
    let mut rest: Vec<u8> = Vec::new();
    let mut j: usize = 0;
    while j < n
        invariant
            j <= n,
            n == slots@.len(),
            views == slot_views(slots@),
            tail_start == head_len(views),
            tail_start <= n * 0xFFFF_FFFF_FFFF_FFFF,
            out@ == head(views.take(j as int), head_len(views)),
            rest@ == tail(views.take(j as int)),
        decreases n - j,
    {
        proof {
            assert(views.take(j + 1).drop_last() =~= views.take(j as int));
            assert(views.take(j + 1).last() == slots@[j as int]@);
            lemma_tail_len(views.take(j as int));
            assert(n * 0xFFFF_FFFF_FFFF_FFFF <= 0xFFFF_FFFF_FFFF_FFFF * 0xFFFF_FFFF_FFFF_FFFF)
                by (nonlinear_arith)
                requires
                    0 <= n <= 0xFFFF_FFFF_FFFF_FFFF,
            ;
        }
        if slots[j].dynamic {
            let offset: Vec<u8> = encode_unsigned(tail_start + rest.len() as u128);
            push_bytes(&mut out, offset.as_slice());
            push_bytes(&mut rest, slots[j].bytes.as_slice());
        } else {
            push_bytes(&mut out, slots[j].bytes.as_slice());
            assert(rest@ + Seq::<u8>::empty() =~= rest@);
        }
        j += 1;
    }
    assert(views.take(n as int) =~= views);
    out.append(&mut rest);
    out
}

} // verus!
