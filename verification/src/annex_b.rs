//! Annex-B byte streams: finding start codes and cutting a stream into NAL
//! units.
//!
//! A start code is `00 00 01` or `00 00 00 01`.  A NAL unit, as handed out
//! here, keeps the start code in front of it and reaches to the next start
//! code.

pub mod laws;

use vstd::prelude::*;
use vstd::slice::slice_subrange;
use vstd::slice::slice_to_vec;

verus! {

/// The length of the start code that the bytes from `i` on spell, if they
/// spell one.  A code counts only if four bytes are there to look at, so a
/// `00 00 01` that ends the data is not one yet.
pub open spec fn code_len_at(data: Seq<u8>, i: int) -> Option<int> {
    if 0 <= i && i + 3 < data.len() && data[i] == 0 && data[i + 1] == 0 {
        if data[i + 2] == 1 {
            Some(3)
        } else if data[i + 2] == 0 && data[i + 3] == 1 {
            Some(4)
        } else {
            None
        }
    } else {
        None
    }
}

/// A start code begins at `p`, and it is not the tail of the four-byte code
/// that begins one byte earlier.
pub open spec fn is_start(data: Seq<u8>, p: int) -> bool {
    &&& code_len_at(data, p) is Some
    &&& code_len_at(data, p - 1) != Some(4int)
}

/// The positions below `n` at which a start code begins, in ascending order.
pub open spec fn starts_below(data: Seq<u8>, n: int) -> Seq<int>
    decreases n,
{
    if n <= 0 {
        Seq::empty()
    } else if is_start(data, n - 1) {
        starts_below(data, n - 1).push(n - 1)
    } else {
        starts_below(data, n - 1)
    }
}

/// The positions at which a start code begins, in ascending order.
pub open spec fn start_positions(data: Seq<u8>) -> Seq<int> {
    starts_below(data, data.len() as int)
}

/// The NAL units of `data` that another start code closes.
pub open spec fn complete_nals(data: Seq<u8>) -> Seq<Seq<u8>> {
    let starts = start_positions(data);
    if starts.len() == 0 {
        Seq::empty()
    } else {
        Seq::new((starts.len() - 1) as nat, |k: int| data.subrange(starts[k], starts[k + 1]))
    }
}

/// What is left of `data` once its complete NAL units are taken out.
pub open spec fn undrained(data: Seq<u8>) -> Seq<u8> {
    let starts = start_positions(data);
    if starts.len() < 2 {
        data
    } else {
        data.subrange(starts.last(), data.len() as int)
    }
}

/// All NAL units of `data`, the last of which ends with the data.
pub open spec fn split_nals(data: Seq<u8>) -> Seq<Seq<u8>> {
    let starts = start_positions(data);
    Seq::new(
        starts.len(),
        |k: int|
            data.subrange(
                starts[k],
                if k + 1 < starts.len() {
                    starts[k + 1]
                } else {
                    data.len() as int
                },
            ),
    )
}

/// The five-bit type in the header byte behind the start code of `nal`.
pub open spec fn nal_type_of(nal: Seq<u8>) -> Option<u8> {
    match code_len_at(nal, 0) {
        Some(len) => if len < nal.len() {
            Some(nal[len] & 0x1F)
        } else {
            None
        },
        None => None,
    }
}

/// The byte sequences that a list of vectors holds.
pub open spec fn byte_seqs(list: Seq<Vec<u8>>) -> Seq<Seq<u8>> {
    list.map_values(|v: Vec<u8>| v@)
}

/// The positions that a list of indices holds.
pub open spec fn positions(list: Seq<usize>) -> Seq<int> {
    list.map_values(|p: usize| p as int)
}

/// The starts below `n` are exactly the positions below `n` at which a start
/// code begins, and they ascend.
proof fn lemma_starts_below(data: Seq<u8>, n: int)
    ensures
        forall|k: int|
            0 <= k < starts_below(data, n).len() ==> 0 <= #[trigger] starts_below(data, n)[k] < n
                && is_start(data, starts_below(data, n)[k]),
        forall|j: int, k: int|
            0 <= j < k < starts_below(data, n).len() ==> #[trigger] starts_below(data, n)[j]
                < #[trigger] starts_below(data, n)[k],
        forall|p: int| 0 <= p < n && is_start(data, p) ==> starts_below(data, n).contains(p),
    decreases n,
{
    if n > 0 {
        lemma_starts_below(data, n - 1);
        let before = starts_below(data, n - 1);
        let now = starts_below(data, n);
        assert forall|p: int| 0 <= p < n && is_start(data, p) implies now.contains(p) by {
            if p == n - 1 {
                assert(now[now.len() - 1] == p);
            } else {
                let k = choose|k: int| 0 <= k < before.len() && before[k] == p;
                assert(now[k] == p);
            }
        }
    }
}

/// Positions without a start add nothing.
proof fn lemma_no_starts_between(data: Seq<u8>, m: int, n: int)
    requires
        0 <= m <= n,
        forall|p: int| m <= p < n ==> !is_start(data, p),
    ensures
        starts_below(data, n) == starts_below(data, m),
    decreases n,
{
    if m < n {
        lemma_no_starts_between(data, m, n - 1);
    }
}

/// The length of the start code at index `i`, or `None` if there is none or
/// fewer than four bytes are left.
pub fn start_code_len(data: &[u8], i: usize) -> (len: Option<usize>)
    ensures
        len is Some <==> code_len_at(data@, i as int) is Some,
        len matches Some(n) ==> code_len_at(data@, i as int) == Some(n as int),
        len == Some(3usize) <==> i + 3 < data@.len() && data@[i as int] == 0 && data@[i + 1] == 0
            && data@[i + 2] == 1,
        len == Some(4usize) <==> i + 3 < data@.len() && data@[i as int] == 0 && data@[i + 1] == 0
            && data@[i + 2] == 0 && data@[i + 3] == 1,
        len is None || len == Some(3usize) || len == Some(4usize),
{
    if data.len() < 4 || i > data.len() - 4 {
        return None;
    }
    if data[i] == 0 && data[i + 1] == 0 {
        if data[i + 2] == 1 {
            return Some(3);
        }
        if data[i + 2] == 0 && data[i + 3] == 1 {
            return Some(4);
        }
    }
    None
}

/// Where the start codes of `data` begin.
pub fn find_start_codes(data: &[u8]) -> (starts: Vec<usize>)
    ensures
        positions(starts@) == start_positions(data@),
        forall|j: int, k: int|
            0 <= j < k < starts@.len() ==> #[trigger] starts@[j] < #[trigger] starts@[k],
        forall|p: usize| #[trigger]
            starts@.contains(p) <==> {
                &&& p + 3 < data@.len() && data@[p as int] == 0 && data@[p + 1] == 0
                &&& data@[p + 2] == 1 || data@[p + 2] == 0 && data@[p + 3] == 1
                &&& !(p > 0 && data@[p - 1] == 0 && data@[p + 2] == 1)
            },
{
    let mut starts: Vec<usize> = Vec::new();
    let mut i: usize = 0;
    while data.len() > 3 && i < data.len() - 3
        invariant
            i <= data@.len(),
            code_len_at(data@, i - 1) != Some(4int),
            positions(starts@) == starts_below(data@, i as int),
        decreases data@.len() - i,
    {
        if let Some(len) = start_code_len(data, i) {
            let ghost before = starts@;
            starts.push(i);
            proof {
                assert(positions(starts@) == positions(before).push(i as int));
                assert(positions(starts@) == starts_below(data@, i + 1));
                lemma_no_starts_between(data@, i + 1, i + len);
            }
            i += len;
        } else {
            i += 1;
        }
    }
    proof {
        lemma_no_starts_between(data@, i as int, data@.len() as int);
        lemma_starts_below(data@, data@.len() as int);
        let at = start_positions(data@);
        assert(forall|k: int| 0 <= k < starts@.len() ==> #[trigger] starts@[k] == positions(starts@)[k]);
        assert forall|p: usize| #[trigger] starts@.contains(p) <==> is_start(data@, p as int) by {
            if is_start(data@, p as int) {
                let k = choose|k: int| 0 <= k < at.len() && at[k] == p as int;
                assert(starts@[k] == p);
            }
        }
    }
    starts
}

/// The bytes of `data` from `start` up to `end`, as a vector.
fn copy_range(data: &[u8], start: usize, end: usize) -> (copy: Vec<u8>)
    requires
        start <= end <= data@.len(),
    ensures
        copy@ == data@.subrange(start as int, end as int),
{
    slice_to_vec(slice_subrange(data, start, end))
}

/// Cuts `data` into its NAL units.  Bytes in front of the first start code
/// belong to none of them.
pub fn split_annex_b(data: &[u8]) -> (nals: Vec<Vec<u8>>)
    ensures
        byte_seqs(nals@) == split_nals(data@),
        nals@.len() == split_nals(data@).len(),
        forall|k: int| 0 <= k < nals@.len() ==> (#[trigger] nals@[k])@ == split_nals(data@)[k],
{
    let starts = find_start_codes(data);
    let ghost at = start_positions(data@);
    proof {
        lemma_starts_below(data@, data@.len() as int);
        assert(forall|k: int| 0 <= k < starts@.len() ==> #[trigger] starts@[k] == positions(starts@)[k]);
    }
    let mut nals: Vec<Vec<u8>> = Vec::new();
    let mut idx: usize = 0;
    while idx < starts.len()
        invariant
            idx <= starts@.len(),
            starts@.len() == at.len(),
            at == start_positions(data@),
            forall|k: int| 0 <= k < at.len() ==> #[trigger] starts@[k] == at[k],
            forall|k: int| 0 <= k < at.len() ==> 0 <= #[trigger] at[k] < data@.len(),
            forall|j: int, k: int| 0 <= j < k < at.len() ==> #[trigger] at[j] < #[trigger] at[k],
            byte_seqs(nals@) == split_nals(data@).take(idx as int),
        decreases starts@.len() - idx,
    {
        let start: usize = starts[idx];
        let end: usize = if idx + 1 < starts.len() {
            starts[idx + 1]
        } else {
            data.len()
        };
        let ghost before = nals@;
        nals.push(copy_range(data, start, end));
        proof {
            assert(byte_seqs(nals@) == byte_seqs(before).push(split_nals(data@)[idx as int]));
        }
        idx += 1;
    }
    assert(byte_seqs(nals@) == split_nals(data@));
    assert forall|k: int| 0 <= k < nals@.len() implies (#[trigger] nals@[k])@ == split_nals(
        data@,
    )[k] by {
        assert(byte_seqs(nals@)[k] == nals@[k]@);
    }
    nals
}

/// Takes the complete NAL units out of `buffer`.  The unit that no further
/// start code closes stays, as does everything while fewer than two start
/// codes are there.
pub fn drain_nals(buffer: &mut Vec<u8>) -> (nals: Vec<Vec<u8>>)
    ensures
        byte_seqs(nals@) == complete_nals(old(buffer)@),
        final(buffer)@ == undrained(old(buffer)@),
        nals@.len() == complete_nals(old(buffer)@).len(),
        forall|k: int|
            0 <= k < nals@.len() ==> (#[trigger] nals@[k])@ == complete_nals(old(buffer)@)[k],
{
    let starts = find_start_codes(buffer.as_slice());
    let ghost data = buffer@;
    let ghost at = start_positions(data);
    proof {
        lemma_starts_below(data, data.len() as int);
        assert(forall|k: int| 0 <= k < starts@.len() ==> #[trigger] starts@[k] == positions(starts@)[k]);
    }
    let mut nals: Vec<Vec<u8>> = Vec::new();
    if starts.len() < 2 {
        return nals;
    }
    let last: usize = starts.len() - 1;
    let mut idx: usize = 0;
    while idx < last
        invariant
            idx <= last,
            last == at.len() - 1,
            starts@.len() == at.len(),
            at == start_positions(data),
            data == buffer@,
            forall|k: int| 0 <= k < at.len() ==> #[trigger] starts@[k] == at[k],
            forall|k: int| 0 <= k < at.len() ==> 0 <= #[trigger] at[k] < data.len(),
            forall|j: int, k: int| 0 <= j < k < at.len() ==> #[trigger] at[j] < #[trigger] at[k],
            byte_seqs(nals@) == complete_nals(data).take(idx as int),
        decreases last - idx,
    {
        let ghost before = nals@;
        nals.push(copy_range(buffer.as_slice(), starts[idx], starts[idx + 1]));
        proof {
            assert(byte_seqs(nals@) == byte_seqs(before).push(complete_nals(data)[idx as int]));
        }
        idx += 1;
    }
    let tail = copy_range(buffer.as_slice(), starts[last], buffer.len());
    buffer.clear();
    buffer.extend_from_slice(tail.as_slice());
    assert(buffer@ == undrained(data));
    assert(byte_seqs(nals@) == complete_nals(data));
    assert forall|k: int| 0 <= k < nals@.len() implies (#[trigger] nals@[k])@ == complete_nals(
        data,
    )[k] by {
        assert(byte_seqs(nals@)[k] == nals@[k]@);
    }
    nals
}

/// The type of a NAL unit that starts with its start code; `None` if it does
/// not, or if nothing follows the code.
pub fn nal_type(nal: &[u8]) -> (ty: Option<u8>)
    ensures
        ty == nal_type_of(nal@),
        nal@.len() >= 4 && nal@[0] == 0 && nal@[1] == 0 && nal@[2] == 1 ==> ty == Some(nal@[3] % 32),
        nal@.len() >= 5 && nal@[0] == 0 && nal@[1] == 0 && nal@[2] == 0 && nal@[3] == 1 ==> ty
            == Some(nal@[4] % 32),
        ty is Some ==> nal@.len() >= 4 && nal@[0] == 0 && nal@[1] == 0 && (nal@[2] == 1 || nal@.len()
            >= 5 && nal@[2] == 0 && nal@[3] == 1),
{
    let len: usize = match start_code_len(nal, 0) {
        Some(len) => len,
        None => return None,
    };
    if len >= nal.len() {
        return None;
    }
    let ghost header: u8 = nal@[len as int];
    assert(header & 0x1F == header % 32) by (bit_vector);
    Some(nal[len] & 0x1F)
}

} // verus!
