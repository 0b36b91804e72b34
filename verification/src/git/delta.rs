//! Reconstruction of an object from its base and a delta.

use vstd::prelude::*;
use vstd::slice::slice_subrange;
use crate::git::bytes::{self, append_bytes, low_first_value, scan_number, ObjectError, WORD};

verus! {

/// The bit of a copy instruction's code that announces its argument `k`.
pub open spec fn arg_mask(k: nat) -> u8 {
    if k == 0 {
        0x01
    } else if k == 1 {
        0x02
    } else if k == 2 {
        0x04
    } else if k == 3 {
        0x08
    } else if k == 4 {
        0x10
    } else if k == 5 {
        0x20
    } else {
        0x40
    }
}

/// How many of the first `k` arguments the copy instruction `op` has.
pub open spec fn args_before(op: u8, k: nat) -> nat
    decreases k,
{
    if k == 0 {
        0
    } else {
        args_before(op, (k - 1) as nat) + (if op & arg_mask((k - 1) as nat) != 0 {
            1nat
        } else {
            0nat
        })
    }
}

/// Argument `k` of the copy instruction `op` whose arguments start at `pos`;
/// an argument that is left out is zero.
pub open spec fn copy_arg(delta: Seq<u8>, pos: int, op: u8, k: nat) -> nat {
    if op & arg_mask(k) != 0 {
        delta[pos + args_before(op, k)] as nat
    } else {
        0
    }
}

/// Where in the base the copy instruction `op` starts to copy.
pub open spec fn copy_offset(delta: Seq<u8>, pos: int, op: u8) -> nat {
    copy_arg(delta, pos, op, 0) + 0x100 * copy_arg(delta, pos, op, 1) + 0x1_0000 * copy_arg(
        delta,
        pos,
        op,
        2,
    ) + 0x100_0000 * copy_arg(delta, pos, op, 3)
}

/// How many bytes the copy instruction `op` copies; zero stands for 65536.
pub open spec fn copy_size(delta: Seq<u8>, pos: int, op: u8) -> nat {
    let size = copy_arg(delta, pos, op, 4) + 0x100 * copy_arg(delta, pos, op, 5) + 0x1_0000
        * copy_arg(delta, pos, op, 6);
    if size == 0 {
        0x1_0000
    } else {
        size
    }
}

/// What the instruction at `pos` appends to the result, and where the next
/// instruction starts.
pub open spec fn delta_step(base: Seq<u8>, delta: Seq<u8>, pos: int) -> Result<
    (Seq<u8>, int),
    ObjectError,
> {
    let op = delta[pos];
    let args = pos + 1;
    if op & 0x80 != 0 {
        let next = args + args_before(op, 7);
        let from = copy_offset(delta, args, op);
        let size = copy_size(delta, args, op);
        if next > delta.len() {
            Err(ObjectError::ShortRead)
        } else if from + size > base.len() {
            Err(ObjectError::CopyOutOfRange)
        } else {
            Ok((base.subrange(from as int, (from + size) as int), next))
        }
    } else if op != 0 {
        if args + op > delta.len() {
            Err(ObjectError::InsertOutOfRange)
        } else {
            Ok((delta.subrange(args, args + op), args + op))
        }
    } else {
        Err(ObjectError::InvalidOpcode)
    }
}

/// What the instructions from `pos` on append to the result.
pub open spec fn delta_output(base: Seq<u8>, delta: Seq<u8>, pos: int) -> Result<
    Seq<u8>,
    ObjectError,
>
    decreases delta.len() - pos,
{
    if pos < 0 || pos >= delta.len() {
        Ok(Seq::empty())
    } else {
        match delta_step(base, delta, pos) {
            Err(e) => Err(e),
            Ok((chunk, next)) => match delta_output(base, delta, next) {
                Err(e) => Err(e),
                Ok(rest) => Ok(chunk + rest),
            },
        }
    }
}

/// The object that `delta` describes over `base`: the delta holds the size of
/// the base, the size of the result, and then instructions.
pub open spec fn delta_result(base: Seq<u8>, delta: Seq<u8>) -> Result<Seq<u8>, ObjectError> {
    match bytes::number_len(delta, 0) {
        None => Err(ObjectError::ShortRead),
        Some(n) => match bytes::number_len(delta, n as int) {
            None => Err(ObjectError::ShortRead),
            Some(m) => match delta_output(base, delta, (n + m) as int) {
                Err(e) => Err(e),
                Ok(out) => if out.len() != bytes::low_first(delta, n as int, m) % (WORD as nat) {
                    Err(ObjectError::SizeMismatch)
                } else {
                    Ok(out)
                },
            },
        },
    }
}

/// The argument byte at `at` when `op` announces it by `mask`, else zero.
fn take_arg(delta: &[u8], at: usize, op: u8, mask: u8) -> (r: Result<u64, ObjectError>)
    ensures
        op & mask == 0 ==> r == Ok::<u64, ObjectError>(0),
        op & mask != 0 && at < delta@.len() ==> r == Ok::<u64, ObjectError>(
            delta@[at as int] as u64,
        ),
        op & mask != 0 && at >= delta@.len() ==> r == Err::<u64, ObjectError>(
            ObjectError::ShortRead,
        ),
{
    if op & mask == 0 {
        Ok(0)
    } else if at < delta.len() {
        Ok(delta[at] as u64)
    } else {
        Err(ObjectError::ShortRead)
    }
}

/// One for an argument that `op` announces by `mask`, else zero.
fn arg_width(op: u8, mask: u8) -> (r: usize)
    ensures
        r == (if op & mask != 0 {
            1usize
        } else {
            0usize
        }),
{
    if op & mask != 0 {
        1
    } else {
        0
    }
}

/// A copy instruction has no fewer arguments in total than before one of them.
proof fn lemma_args_before(op: u8)
    ensures
        args_before(op, 0) == 0,
        args_before(op, 1) == args_before(op, 0) + (if op & 0x01 != 0 { 1nat } else { 0nat }),
        args_before(op, 2) == args_before(op, 1) + (if op & 0x02 != 0 { 1nat } else { 0nat }),
        args_before(op, 3) == args_before(op, 2) + (if op & 0x04 != 0 { 1nat } else { 0nat }),
        args_before(op, 4) == args_before(op, 3) + (if op & 0x08 != 0 { 1nat } else { 0nat }),
        args_before(op, 5) == args_before(op, 4) + (if op & 0x10 != 0 { 1nat } else { 0nat }),
        args_before(op, 6) == args_before(op, 5) + (if op & 0x20 != 0 { 1nat } else { 0nat }),
        args_before(op, 7) == args_before(op, 6) + (if op & 0x40 != 0 { 1nat } else { 0nat }),
{
    reveal_with_fuel(args_before, 8);
}

/// The offset and size of the copy instruction `op` whose arguments start at
/// `pos`, and where the next instruction starts.
fn read_copy(delta: &[u8], pos: usize, op: u8) -> (r: Result<(u64, u64, usize), ObjectError>)
    requires
        pos <= delta@.len(),
    ensures
        pos + args_before(op, 7) > delta@.len() ==> r == Err::<(u64, u64, usize), ObjectError>(
            ObjectError::ShortRead,
        ),
        pos + args_before(op, 7) <= delta@.len() ==> (r matches Ok(c) && {
            &&& c.0 as nat == copy_offset(delta@, pos as int, op)
            &&& c.1 as nat == copy_size(delta@, pos as int, op)
            &&& c.2 == pos + args_before(op, 7)
            &&& c.0 <= 0xffff_ffff
            &&& c.1 <= 0xff_ffff
        }),
{
    proof {
        lemma_args_before(op);
    }
    let len: usize = delta.len();
    let a0: u64 = take_arg(delta, pos, op, 0x01)?;
    let p1: usize = pos + arg_width(op, 0x01);
    let a1: u64 = take_arg(delta, p1, op, 0x02)?;
    let p2: usize = p1 + arg_width(op, 0x02);
    let a2: u64 = take_arg(delta, p2, op, 0x04)?;
    let p3: usize = p2 + arg_width(op, 0x04);
    let a3: u64 = take_arg(delta, p3, op, 0x08)?;
    let p4: usize = p3 + arg_width(op, 0x08);
    let a4: u64 = take_arg(delta, p4, op, 0x10)?;
    let p5: usize = p4 + arg_width(op, 0x10);
    let a5: u64 = take_arg(delta, p5, op, 0x20)?;
    let p6: usize = p5 + arg_width(op, 0x20);
    let a6: u64 = take_arg(delta, p6, op, 0x40)?;
    let p7: usize = p6 + arg_width(op, 0x40);
    let offset: u64 = a0 + 0x100 * a1 + 0x1_0000 * a2 + 0x100_0000 * a3;
    let size: u64 = a4 + 0x100 * a5 + 0x1_0000 * a6;
    Ok((offset, if size == 0 { 0x1_0000 } else { size }, p7))
}

/// Rebuild an object from `base` and `delta`.
pub fn apply_delta(base: &[u8], delta: &[u8]) -> (r: Result<Vec<u8>, ObjectError>)
    ensures
        r is Ok <==> delta_result(base@, delta@) is Ok,
        r matches Ok(out) ==> delta_result(base@, delta@) == Ok::<Seq<u8>, ObjectError>(out@),
        r matches Err(e) ==> delta_result(base@, delta@) == Err::<Seq<u8>, ObjectError>(e),
{
    let n: usize = match scan_number(delta, 0) {
        Some(n) => n,
        None => return Err(ObjectError::ShortRead),
    };
    let m: usize = match scan_number(delta, n) {
        Some(m) => m,
        None => return Err(ObjectError::ShortRead),
    };
    proof {
        bytes::lemma_number_len(delta@, 0);
        bytes::lemma_number_len(delta@, n as int);
    }
    let target_size: u64 = low_first_value(delta, n, m);
    assert(n + m <= delta.len());
    let start: usize = n + m;
    let mut pos: usize = start;
    let mut out: Vec<u8> = Vec::new();
    while pos < delta.len()
        invariant
            start <= pos <= delta.len(),
            delta_output(base@, delta@, start as int) == (match delta_output(
                base@,
                delta@,
                pos as int,
            ) {
                Ok(rest) => Ok::<Seq<u8>, ObjectError>(out@ + rest),
                Err(e) => Err::<Seq<u8>, ObjectError>(e),
            }),
            bytes::number_len(delta@, 0) == Some(n as nat),
            bytes::number_len(delta@, n as int) == Some(m as nat),
            start == n + m,
        decreases delta.len() - pos,
    {
        let op: u8 = delta[pos];
        let args: usize = pos + 1;
        let ghost before = out@;
        if op & 0x80 != 0 {
            let (offset, size, next) = read_copy(delta, args, op)?;
            let base_len: u64 = base.len() as u64;
            if offset > base_len || size > base_len - offset {
                return Err(ObjectError::CopyOutOfRange);
            }
            let chunk = slice_subrange(base, offset as usize, (offset + size) as usize);
            append_bytes(&mut out, chunk);
            proof {
                if delta_output(base@, delta@, next as int) is Ok {
                    let rest = delta_output(base@, delta@, next as int)->Ok_0;
                    assert(before + (chunk@ + rest) =~= out@ + rest);
                }
            }
            pos = next;
        } else if op != 0 {
            let count: usize = op as usize;
            if count > delta.len() - args {
                return Err(ObjectError::InsertOutOfRange);
            }
            let chunk = slice_subrange(delta, args, args + count);
            append_bytes(&mut out, chunk);
            proof {
                if delta_output(base@, delta@, args + count) is Ok {
                    let rest = delta_output(base@, delta@, args + count)->Ok_0;
                    assert(before + (chunk@ + rest) =~= out@ + rest);
                }
            }
            pos = args + count;
        } else {
            return Err(ObjectError::InvalidOpcode);
        }
    }
    assert(out@ + Seq::<u8>::empty() =~= out@);
    if out.len() as u64 != target_size {
        return Err(ObjectError::SizeMismatch);
    }
    Ok(out)
}

}
