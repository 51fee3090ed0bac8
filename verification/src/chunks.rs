//! The chunked-upload planner. Backends that cap request-body size take a
//! byte buffer as a sequence of ranged chunks: all chunks but the last have
//! exactly the chosen size, the chunks stand in strictly increasing offset
//! order, and their concatenation is the original buffer. Each chunk's
//! range is reported in `Content-Range` style with inclusive end offsets.

use vstd::prelude::*;
use vstd::arithmetic::div_mod::lemma_basic_div;
use vstd::arithmetic::div_mod::lemma_div_plus_one;
use vstd::slice::slice_subrange;
use vstd::slice::slice_to_vec;

use crate::digits::decimal_digits;
use crate::digits::u64_to_decimal;

verus! {

/// The byte-range alignment the resumable-upload backend mandates: a chunk
/// size must be a multiple of it (320 KiB).
pub const UPLOAD_CHUNK_ALIGNMENT: usize = 327680;

/// How many chunks a buffer of `n` bytes yields at chunk size `c`: one for
/// every full `c` bytes, plus one for a nonempty remainder.
pub open spec fn chunk_count(n: nat, c: nat) -> nat
    decreases n,
{
    if c == 0 {
        0
    } else if n == 0 {
        0
    } else if n <= c {
        1
    } else {
        (1 + chunk_count((n - c) as nat, c)) as nat
    }
}

/// `chunk_count` is the ceiling of `n / c`.
pub proof fn lemma_chunk_count_is_ceiling(n: nat, c: nat)
    requires
        c > 0,
    ensures
        chunk_count(n, c) == (n + c - 1) / (c as int),
    decreases n,
{
    if n == 0 {
        lemma_basic_div(c as int - 1, c as int);
    } else if n <= c {
        lemma_basic_div(n as int - 1, c as int);
        lemma_div_plus_one(n as int - 1, c as int);
    } else {
        lemma_chunk_count_is_ceiling((n - c) as nat, c);
        lemma_div_plus_one(n as int - 1, c as int);
    }
}

/// One planned chunk: the offset of its first byte, and its bytes.
pub struct Chunk {
    pub start: usize,
    pub data: Vec<u8>,
}

impl Chunk {
    /// The inclusive offset of the chunk's last byte, as a
    /// `Content-Range: bytes start-end/total` header states it.
    pub fn range_end(&self) -> (r: usize)
        requires
            self.data@.len() > 0,
            self.start + self.data@.len() <= usize::MAX,
        ensures
            r == self.start + self.data@.len() - 1,
    {
        self.start + self.data.len() - 1
    }
}

/// Render the header value that tags one chunk's range against the whole
/// upload: `bytes start-end/total`, with an inclusive end offset.
pub fn content_range_value(start: u64, end: u64, total: u64) -> (r: String)
    ensures
        r@ == "bytes "@ + decimal_digits(start as nat) + "-"@ + decimal_digits(end as nat) + "/"@
            + decimal_digits(total as nat),
{
    let mut r = String::from_str("bytes ");
    r.append(u64_to_decimal(start).as_str());
    r.append("-");
    r.append(u64_to_decimal(end).as_str());
    r.append("/");
    r.append(u64_to_decimal(total).as_str());
    proof {
        assert(r@ =~= "bytes "@ + decimal_digits(start as nat) + "-"@ + decimal_digits(end as nat)
            + "/"@ + decimal_digits(total as nat));
    }
    r
}

/// The bytes of a chunk sequence, concatenated in order.
pub open spec fn concat_chunks(cs: Seq<Chunk>) -> Seq<u8>
    decreases cs.len(),
{
    if cs.len() == 0 {
        Seq::empty()
    } else {
        concat_chunks(cs.drop_last()) + cs.last().data@
    }
}

/// Split `content` into chunks of exactly `chunk_size` bytes, the final
/// chunk carrying the (nonempty) remainder. The chunks stand in strictly
/// increasing offset order and their concatenation is `content`; an empty
/// buffer yields no chunks.
pub fn plan_chunks(content: &Vec<u8>, chunk_size: usize) -> (r: Vec<Chunk>)
    requires
        chunk_size > 0,
    ensures
        r@.len() == chunk_count(content@.len() as nat, chunk_size as nat),
        forall|i: int|
            #![auto]
            0 <= i < r@.len() ==> r@[i].start == i * chunk_size && r@[i].data@.len() > 0
                && r@[i].data@ == content@.subrange(
                i * chunk_size,
                if (i + 1) * chunk_size <= content@.len() {
                    (i + 1) * chunk_size
                } else {
                    content@.len() as int
                },
            ),
        forall|i: int| #![auto] 0 <= i < r@.len() - 1 ==> r@[i].data@.len() == chunk_size,
        concat_chunks(r@) == content@,
{
    let n = content.len();
    let mut r: Vec<Chunk> = Vec::new();
    let mut offset: usize = 0;
    proof {
        assert(content@.subrange(0, 0) =~= Seq::<u8>::empty());
        assert(0 * chunk_size == 0) by (nonlinear_arith);
    }
    while offset < n
        invariant
            chunk_size > 0,
            n == content@.len(),
            0 <= offset <= n,
            offset == r@.len() * chunk_size || (offset == n && r@.len() > 0 && offset > (r@.len()
                - 1) * chunk_size),
            r@.len() + chunk_count((n - offset) as nat, chunk_size as nat) == chunk_count(
                n as nat,
                chunk_size as nat,
            ),
            forall|i: int|
                #![auto]
                0 <= i < r@.len() ==> r@[i].start == i * chunk_size && r@[i].data@.len() > 0
                    && r@[i].data@ == content@.subrange(
                    i * chunk_size,
                    if (i + 1) * chunk_size <= content@.len() {
                        (i + 1) * chunk_size
                    } else {
                        content@.len() as int
                    },
                ),
            forall|i: int| #![auto] 0 <= i < r@.len() - 1 ==> r@[i].data@.len() == chunk_size,
            concat_chunks(r@) == content@.subrange(0, offset as int),
        decreases n - offset,
    {
        proof {
            if offset != r@.len() * chunk_size {
                assert(false);
            }
        }
        let end = if n - offset > chunk_size {
            offset + chunk_size
        } else {
            n
        };
        let piece = slice_to_vec(slice_subrange(content.as_slice(), offset, end));
        let ghost r0 = r@;
        let ghost off0 = offset as int;
        let chunk = Chunk { start: offset, data: piece };
        let ghost cv = chunk;
        r.push(chunk);
        proof {
            assert(r@.drop_last() =~= r0);
            assert(r@.len() == r0.len() + 1);
            assert((r0.len() + 1 - 1) * chunk_size == r0.len() * chunk_size) by (nonlinear_arith);
            assert(cv.start == r0.len() * chunk_size);
            assert forall|i: int| #![auto] 0 <= i < r@.len() implies r@[i].start == i * chunk_size
                && r@[i].data@.len() > 0 && r@[i].data@ == content@.subrange(
                i * chunk_size,
                if (i + 1) * chunk_size <= content@.len() {
                    (i + 1) * chunk_size
                } else {
                    content@.len() as int
                },
            ) by {
                if i < r0.len() {
                    assert(r@[i] == r0[i]);
                } else {
                    assert(r@[i] == cv);
                    assert((r0.len() + 1) * chunk_size == r0.len() * chunk_size + chunk_size)
                        by (nonlinear_arith);
                }
            }
            assert forall|i: int|
                #![auto]
                0 <= i < r@.len() - 1 implies r@[i].data@.len() == chunk_size by {
                assert(r@[i] == r0[i]);
                assert((i + 1) * chunk_size - i * chunk_size == chunk_size) by (nonlinear_arith);
                if i == r0.len() - 1 {
                    assert((i + 1) * chunk_size == off0);
                    assert((i + 1) * chunk_size <= content@.len());
                    assert(r0[i].data@ == content@.subrange(i * chunk_size, (i + 1) * chunk_size));
                }
            }
            assert(concat_chunks(r@) == concat_chunks(r0) + cv.data@);
            assert(content@.subrange(0, off0) + content@.subrange(off0, end as int)
                =~= content@.subrange(0, end as int));
        }
        offset = end;
        proof {
            if offset < n {
                assert(offset == (r@.len() - 1) * chunk_size + chunk_size);
                assert(r@.len() * chunk_size == (r@.len() - 1) * chunk_size + chunk_size)
                    by (nonlinear_arith);
            } else {
                assert(offset > (r@.len() - 1) * chunk_size);
            }
        }
    }
    proof {
        assert(content@.subrange(0, n as int) =~= content@);
    }
    r
}

/// Law (chunk reconstruction): a buffer of `n` bytes split at an aligned
/// chunk size `c` yields exactly `⌈n / c⌉` chunks whose concatenation in
/// offset order is the original buffer, and when the buffer is nonempty
/// the last chunk's inclusive range end is `n - 1`. All of this follows
/// from what `plan_chunks` ensures.
pub proof fn lemma_chunk_plan_reconstructs(content: Seq<u8>, chunk_size: nat, plan: Seq<Chunk>)
    requires
        chunk_size > 0,
        plan.len() == chunk_count(content.len(), chunk_size),
        forall|i: int|
            #![auto]
            0 <= i < plan.len() ==> plan[i].start == i * chunk_size && plan[i].data@.len() > 0
                && plan[i].data@ == content.subrange(
                i * chunk_size,
                if (i + 1) * chunk_size <= content.len() {
                    (i + 1) * chunk_size
                } else {
                    content.len() as int
                },
            ),
        concat_chunks(plan) == content,
    ensures
        plan.len() == (content.len() + chunk_size - 1) / (chunk_size as int),
        content.len() > 0 ==> plan.len() > 0 && plan.last().start + plan.last().data@.len()
            == content.len(),
{
    lemma_chunk_count_is_ceiling(content.len(), chunk_size);
    if content.len() > 0 {
        lemma_chunk_count_bounds(content.len(), chunk_size);
        let j = plan.len() - 1;
        assert(plan[j].data@ == content.subrange(
            j * chunk_size,
            if (j + 1) * chunk_size <= content.len() {
                (j + 1) * chunk_size
            } else {
                content.len() as int
            },
        ));
    }
}

/// The chunks cover the buffer: `chunk_count(n, c)` full sizes reach at
/// least `n` bytes, and one fewer falls short.
proof fn lemma_chunk_count_bounds(n: nat, c: nat)
    requires
        c > 0,
        n > 0,
    ensures
        chunk_count(n, c) * c >= n,
        (chunk_count(n, c) - 1) * c < n,
    decreases n,
{
    if n <= c {
        assert(chunk_count(n, c) == 1);
    } else {
        lemma_chunk_count_bounds((n - c) as nat, c);
        let k = chunk_count((n - c) as nat, c);
        assert((1 + k) * c == c + k * c) by (nonlinear_arith);
        assert((1 + k - 1) * c == (k - 1) * c + c) by (nonlinear_arith);
    }
}

} // verus!
