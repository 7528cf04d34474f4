use vstd::prelude::*;

verus! {

/// Little-endian base-128 encoding: seven bits per byte, the high bit set
/// on every byte but the last.
pub open spec fn varint(v: nat) -> Seq<u8>
    decreases v,
{
    if v < 128 {
        seq![v as u8]
    } else {
        seq![((v % 128) + 128) as u8] + varint(v / 128)
    }
}

/// Two to the power `bits`.
pub open spec fn flag_scale(bits: nat) -> nat
    decreases bits,
{
    if bits == 0 {
        1
    } else {
        2 * flag_scale((bits - 1) as nat)
    }
}

/// The value stored in a record's header: the length shifted left by the
/// number of flag bits, with the flags in the low bits.
pub open spec fn header_value(len: nat, flags_count: nat, flags: nat) -> nat {
    len * flag_scale(flags_count) + flags
}

/// Whether a header can be written: the flags fit in their bits and the
/// header value fits in 64 bits.
pub open spec fn header_fits(len: nat, flags_count: nat, flags: nat) -> bool {
    &&& flags_count < 64
    &&& flags < flag_scale(flags_count)
    &&& header_value(len, flags_count, flags) <= u64::MAX
}

/// Appends the base-128 encoding of `v`.
pub fn encode_varint(v: u64, out: &mut Vec<u8>)
    ensures
        final(out)@ == old(out)@ + varint(v as nat),
{
    let mut x: u64 = v;
    loop
        invariant
            out@ + varint(x as nat) == old(out)@ + varint(v as nat),
        decreases x,
    {
        if x < 128 {
            let ghost before = out@;
            out.push(x as u8);
            assert(out@ =~= before + varint(x as nat));
            return;
        }
        let ghost before = out@;
        out.push(((x % 128) + 128) as u8);
        assert(out@ + varint((x / 128) as nat) =~= before + varint(x as nat));
        x = x / 128;
    }
}

proof fn lemma_flag_scale_mono(a: nat, b: nat)
    requires
        a <= b,
    ensures
        1 <= flag_scale(a) <= flag_scale(b),
    decreases b,
{
    if b > 0 {
        if a == b {
            lemma_flag_scale_mono(0, (b - 1) as nat);
        } else {
            lemma_flag_scale_mono(a, (b - 1) as nat);
        }
    }
}

proof fn lemma_flag_scale_63()
    ensures
        flag_scale(63) == 0x8000_0000_0000_0000,
{
    reveal_with_fuel(flag_scale, 64);
}

/// Two to the power `bits`, for fewer than 64 bits.
fn flag_scale_exec(bits: usize) -> (r: u64)
    requires
        bits < 64,
    ensures
        r == flag_scale(bits as nat),
{
    let mut r: u64 = 1;
    let mut i: usize = 0;
    while i < bits
        invariant
            i <= bits < 64,
            r == flag_scale(i as nat),
        decreases bits - i,
    {
        proof {
            lemma_flag_scale_mono((i + 1) as nat, 63);
            lemma_flag_scale_63();
        }
        r = r * 2;
        i = i + 1;
    }
    r
}

/// Appends the header of a record of `len` units with the given flags,
/// or returns `false` and leaves `out` as it is when it does not fit.
pub fn encode_varint_flags(out: &mut Vec<u8>, len: u64, flags_count: usize, flags: u8) -> (r: bool)
    ensures
        r == header_fits(len as nat, flags_count as nat, flags as nat),
        r ==> final(out)@ == old(out)@ + varint(header_value(len as nat, flags_count as nat, flags as nat)),
        !r ==> final(out)@ == old(out)@,
{
    if flags_count >= 64 {
        return false;
    }
    let scale = flag_scale_exec(flags_count);
    if flags as u64 >= scale {
        return false;
    }
    match len.checked_mul(scale) {
        None => {
            proof {
                assert(header_value(len as nat, flags_count as nat, flags as nat) >= len * scale);
            }
            false
        },
        Some(shifted) => match shifted.checked_add(flags as u64) {
            None => false,
            Some(header) => {
                encode_varint(header, out);
                true
            },
        },
    }
}

} // verus!
