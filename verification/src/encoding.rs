//! The encoding of the external data tells any two transactions apart.
use vstd::prelude::*;
use crate::utils::{as_unsigned, le_bytes, ExtData};

verus! {

/// The number of values that `width` bytes can spell.
spec fn limit(width: nat) -> nat
    decreases width,
{
    if width == 0 {
        1
    } else {
        256 * limit((width - 1) as nat)
    }
}

/// Four bytes spell the 32-bit numbers, eight bytes the 64-bit numbers.
proof fn lemma_limits()
    ensures
        limit(4) == 0x1_0000_0000,
        limit(8) == 0x1_0000_0000_0000_0000,
{
    reveal_with_fuel(limit, 9);
}

/// A number is spelled in as many bytes as are asked for.
proof fn lemma_le_bytes_len(value: nat, width: nat)
    ensures
        le_bytes(value, width).len() == width,
    decreases width,
{
    if width > 0 {
        lemma_le_bytes_len(value / 256, (width - 1) as nat);
    }
}

/// Two numbers that `width` bytes can spell and that are spelled alike are
/// the same number.
proof fn lemma_le_bytes_injective(a: nat, b: nat, width: nat)
    requires
        a < limit(width),
        b < limit(width),
        le_bytes(a, width) == le_bytes(b, width),
    ensures
        a == b,
    decreases width,
{
    if width > 0 {
        let rest_a = le_bytes(a / 256, (width - 1) as nat);
        let rest_b = le_bytes(b / 256, (width - 1) as nat);
        let first_a = seq![(a % 256) as u8];
        let first_b = seq![(b % 256) as u8];
        lemma_split(first_a, rest_a, first_b, rest_b);
        assert(first_a[0] == first_b[0]);
        lemma_le_bytes_injective(a / 256, b / 256, (width - 1) as nat);
    }
}

/// Two strings that start with pieces of one length and are equal have equal
/// pieces and equal rests.
proof fn lemma_split(a: Seq<u8>, rest_a: Seq<u8>, b: Seq<u8>, rest_b: Seq<u8>)
    requires
        a.len() == b.len(),
        a + rest_a == b + rest_b,
    ensures
        a == b,
        rest_a == rest_b,
{
    let whole = a + rest_a;
    assert(a =~= whole.subrange(0, a.len() as int));
    assert(b =~= (b + rest_b).subrange(0, b.len() as int));
    assert(rest_a =~= whole.subrange(a.len() as int, whole.len() as int));
    assert(rest_b =~= (b + rest_b).subrange(b.len() as int, whole.len() as int));
}

/// The fields of the external data behind the recipient, from `stage` on.
spec fn tail(data: ExtData, stage: nat) -> Seq<u8>
    decreases 7 - stage,
{
    if stage == 0 {
        le_bytes(as_unsigned(data.ext_amount), 8) + tail(data, 1)
    } else if stage == 1 {
        le_bytes(data.encrypted_output1.len(), 4) + tail(data, 2)
    } else if stage == 2 {
        data.encrypted_output1 + tail(data, 3)
    } else if stage == 3 {
        le_bytes(data.encrypted_output2.len(), 4) + tail(data, 4)
    } else if stage == 4 {
        data.encrypted_output2 + tail(data, 5)
    } else if stage == 5 {
        le_bytes(data.fee, 8) + tail(data, 6)
    } else if stage == 6 {
        data.fee_recipient + data.mint_address
    } else {
        Seq::empty()
    }
}

/// The encoding is the recipient followed by the other fields in turn.
proof fn lemma_encoding_in_stages(data: ExtData)
    ensures
        data.encoding() == data.recipient + tail(data, 0),
{
    reveal_with_fuel(tail, 8);
    assert(data.encoding() =~= data.recipient + tail(data, 0));
}

/// Two transactions whose external data are encoded alike have the same
/// external data: the encoding loses nothing of any field.
pub proof fn law_ext_data_encoding_is_injective(a: ExtData, b: ExtData)
    requires
        a.wf(),
        b.wf(),
        a.encoding() == b.encoding(),
    ensures
        a == b,
{
    lemma_limits();
    lemma_encoding_in_stages(a);
    lemma_encoding_in_stages(b);
    lemma_split(a.recipient, tail(a, 0), b.recipient, tail(b, 0));

    lemma_le_bytes_len(as_unsigned(a.ext_amount), 8);
    lemma_le_bytes_len(as_unsigned(b.ext_amount), 8);
    lemma_split(
        le_bytes(as_unsigned(a.ext_amount), 8),
        tail(a, 1),
        le_bytes(as_unsigned(b.ext_amount), 8),
        tail(b, 1),
    );
    lemma_le_bytes_injective(as_unsigned(a.ext_amount), as_unsigned(b.ext_amount), 8);
    assert(a.ext_amount == b.ext_amount);

    lemma_le_bytes_len(a.encrypted_output1.len(), 4);
    lemma_le_bytes_len(b.encrypted_output1.len(), 4);
    lemma_split(
        le_bytes(a.encrypted_output1.len(), 4),
        tail(a, 2),
        le_bytes(b.encrypted_output1.len(), 4),
        tail(b, 2),
    );
    lemma_le_bytes_injective(a.encrypted_output1.len(), b.encrypted_output1.len(), 4);
    lemma_split(a.encrypted_output1, tail(a, 3), b.encrypted_output1, tail(b, 3));

    lemma_le_bytes_len(a.encrypted_output2.len(), 4);
    lemma_le_bytes_len(b.encrypted_output2.len(), 4);
    lemma_split(
        le_bytes(a.encrypted_output2.len(), 4),
        tail(a, 4),
        le_bytes(b.encrypted_output2.len(), 4),
        tail(b, 4),
    );
    lemma_le_bytes_injective(a.encrypted_output2.len(), b.encrypted_output2.len(), 4);
    lemma_split(a.encrypted_output2, tail(a, 5), b.encrypted_output2, tail(b, 5));

    lemma_le_bytes_len(a.fee, 8);
    lemma_le_bytes_len(b.fee, 8);
    lemma_split(le_bytes(a.fee, 8), tail(a, 6), le_bytes(b.fee, 8), tail(b, 6));
    lemma_le_bytes_injective(a.fee, b.fee, 8);

    lemma_split(a.fee_recipient, a.mint_address, b.fee_recipient, b.mint_address);
}

} // verus!
