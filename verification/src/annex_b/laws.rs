//! What holds of cutting Annex-B streams, whatever the bytes.

use crate::annex_b::{
    byte_seqs, code_len_at, complete_nals, is_start, lemma_no_starts_between, lemma_starts_below,
    nal_type_of, positions, split_nals, start_positions, starts_below, undrained,
};
use vstd::prelude::*;
use vstd::seq_lib::lemma_flatten_concat;

verus! {

/// Every position of `list`, `by` further on.
spec fn shifted(list: Seq<int>, by: int) -> Seq<int> {
    list.map_values(|p: int| p + by)
}

/// The starts in front of the `k`-th start are the first `k` starts.
proof fn lemma_starts_take(data: Seq<u8>, n: int, k: int)
    requires
        0 <= k < starts_below(data, n).len(),
    ensures
        starts_below(data, starts_below(data, n)[k]) == starts_below(data, n).take(k),
    decreases n,
{
    let all = starts_below(data, n);
    let fewer = starts_below(data, n - 1);
    if k < fewer.len() {
        lemma_starts_take(data, n - 1, k);
        assert(all.take(k) == fewer.take(k));
    } else {
        assert(all.take(k) == fewer);
    }
}

/// Whether a start code begins at `p` is settled by the four bytes from `p`
/// on and the byte in front of them: what comes later changes nothing.
proof fn lemma_starts_of_prefix(data: Seq<u8>, more: Seq<u8>, n: int)
    requires
        n + 3 <= data.len() || n <= 0,
    ensures
        starts_below(data + more, n) == starts_below(data, n),
    decreases n,
{
    if n > 0 {
        lemma_starts_of_prefix(data, more, n - 1);
        assert(is_start(data + more, n - 1) == is_start(data, n - 1));
    }
}

/// Cutting off what stands in front of a start only moves the starts behind
/// it.
proof fn lemma_starts_of_suffix(data: Seq<u8>, from: int, n: int)
    requires
        0 <= from <= n <= data.len(),
        from < data.len() ==> is_start(data, from),
    ensures
        starts_below(data, n) == starts_below(data, from) + shifted(
            starts_below(data.skip(from), n - from),
            from,
        ),
    decreases n,
{
    let tail = data.skip(from);
    if from < n {
        lemma_starts_of_suffix(data, from, n - 1);
        let p = n - 1;
        if p == from {
            assert(code_len_at(tail, 0) == code_len_at(data, from));
        } else {
            assert(code_len_at(tail, p - from) == code_len_at(data, p));
            assert(code_len_at(tail, p - from - 1) == code_len_at(data, p - 1));
        }
        let before = starts_below(tail, p - from);
        if is_start(data, p) {
            assert(shifted(before.push(p - from), from) == shifted(before, from).push(p));
        }
    } else {
        assert(shifted(starts_below(tail, 0), from) == Seq::<int>::empty());
    }
}

/// The start positions ascend, and they are exactly the positions at which a
/// start code begins.
pub proof fn law_start_positions(data: Seq<u8>)
    ensures
        forall|p: int| start_positions(data).contains(p) <==> is_start(data, p),
        forall|j: int, k: int|
            0 <= j < k < start_positions(data).len() ==> #[trigger] start_positions(data)[j]
                < #[trigger] start_positions(data)[k],
{
    lemma_starts_below(data, data.len() as int);
}

/// Taking out the complete NAL units chunk by chunk gives the same units, and
/// leaves the same bytes, as taking them out of the whole at once.
pub proof fn law_drain_is_chunk_independent(buffer: Seq<u8>, chunk: Seq<u8>)
    ensures
        complete_nals(buffer + chunk) == complete_nals(buffer) + complete_nals(
            undrained(buffer) + chunk,
        ),
        undrained(buffer + chunk) == undrained(undrained(buffer) + chunk),
{
    let whole = buffer + chunk;
    let early = start_positions(buffer);
    let all = start_positions(whole);
    if early.len() < 2 {
        assert(complete_nals(buffer) == Seq::<Seq<u8>>::empty());
    } else {
        let cut = early.last();
        let rest = undrained(buffer) + chunk;
        let late = start_positions(rest);
        lemma_starts_below(buffer, buffer.len() as int);
        lemma_starts_below(rest, rest.len() as int);
        assert(is_start(buffer, cut));
        assert(is_start(whole, cut));
        assert(rest == whole.skip(cut));
        lemma_starts_of_suffix(whole, cut, whole.len() as int);
        lemma_starts_of_prefix(buffer, chunk, cut);
        lemma_starts_take(buffer, buffer.len() as int, early.len() - 1);
        assert(all == early.drop_last() + shifted(late, cut));
        assert(is_start(rest, 0));
        assert(late.contains(0));
        assert(late[0] == 0);
        let first = complete_nals(buffer);
        let second = complete_nals(rest);
        assert(all.len() == early.len() - 1 + late.len());
        assert forall|k: int| 0 <= k < all.len() - 1 implies complete_nals(whole)[k] == (first
            + second)[k] by {
            if k < first.len() {
                assert(all[k] == early[k]);
                assert(all[k + 1] == early[k + 1]);
                assert(whole.subrange(early[k], early[k + 1]) == buffer.subrange(
                    early[k],
                    early[k + 1],
                ));
            } else {
                let j = k - first.len();
                assert(all[k] == late[j] + cut);
                assert(all[k + 1] == late[j + 1] + cut);
                assert(whole.subrange(all[k], all[k + 1]) == rest.subrange(late[j], late[j + 1]));
            }
        }
        assert(complete_nals(whole) == first + second);
        assert(all.last() == late.last() + cut);
        assert(whole.subrange(all.last(), whole.len() as int) == rest.subrange(
            late.last(),
            rest.len() as int,
        ));
        if late.len() < 2 {
            assert(rest.subrange(0, rest.len() as int) == rest);
        }
    }
}

/// The first `k` NAL units, one after the other, are the bytes from the first
/// start up to the `k`-th.
proof fn lemma_flatten_split(data: Seq<u8>, k: int)
    requires
        0 <= k < start_positions(data).len(),
    ensures
        split_nals(data).take(k).flatten() == data.subrange(
            start_positions(data)[0],
            start_positions(data)[k],
        ),
    decreases k,
{
    let starts = start_positions(data);
    let nals = split_nals(data);
    lemma_starts_below(data, data.len() as int);
    if k == 0 {
        assert(nals.take(0).flatten() == Seq::<u8>::empty());
    } else {
        lemma_flatten_split(data, k - 1);
        assert(nals.take(k) == nals.take(k - 1).push(nals[k - 1]));
        nals.take(k - 1).lemma_flatten_push(nals[k - 1]);
    }
}

/// The NAL units of `data`, one after the other, are `data` from its first
/// start code on; without a start code there are none.
pub proof fn law_split_keeps_every_byte(data: Seq<u8>)
    ensures
        start_positions(data).len() == 0 ==> split_nals(data).len() == 0,
        start_positions(data).len() > 0 ==> split_nals(data).flatten() == data.skip(
            start_positions(data)[0],
        ),
{
    let starts = start_positions(data);
    let nals = split_nals(data);
    if starts.len() > 0 {
        let last = starts.len() - 1;
        lemma_starts_below(data, data.len() as int);
        lemma_flatten_split(data, last);
        assert(nals == nals.take(last).push(nals[last]));
        nals.take(last).lemma_flatten_push(nals[last]);
    }
}

/// `split_nals` hands out the complete NAL units and, behind them, the one
/// that draining keeps back.
pub proof fn law_split_is_drain_and_rest(data: Seq<u8>)
    requires
        start_positions(data).len() > 0,
    ensures
        split_nals(data) == complete_nals(data).push(data.skip(start_positions(data).last())),
        start_positions(data).len() > 1 ==> undrained(data) == data.skip(
            start_positions(data).last(),
        ),
{
    let starts = start_positions(data);
    lemma_starts_below(data, data.len() as int);
    assert(data.skip(starts.last()) == data.subrange(starts.last(), data.len() as int));
    assert(split_nals(data) == complete_nals(data).push(data.skip(starts.last())));
}

/// Draining loses no byte behind the first start code and changes the order
/// of none.
pub proof fn law_drain_keeps_every_byte(data: Seq<u8>)
    ensures
        start_positions(data).len() < 2 ==> complete_nals(data).len() == 0 && undrained(data)
            == data,
        start_positions(data).len() >= 2 ==> complete_nals(data).flatten() + undrained(data)
            == data.skip(start_positions(data)[0]),
{
    if start_positions(data).len() >= 2 {
        law_split_keeps_every_byte(data);
        law_split_is_drain_and_rest(data);
        complete_nals(data).lemma_flatten_push(undrained(data));
    }
}

/// What draining leaves holds at most one start code, so draining it again
/// hands out nothing and leaves it as it is.
pub proof fn law_drain_is_complete(data: Seq<u8>)
    ensures
        start_positions(undrained(data)).len() <= 1,
        complete_nals(undrained(data)) == Seq::<Seq<u8>>::empty(),
        undrained(undrained(data)) == undrained(data),
{
    let starts = start_positions(data);
    if starts.len() >= 2 {
        let rest = undrained(data);
        let cut = starts.last();
        lemma_starts_below(data, data.len() as int);
        assert(is_start(data, cut));
        assert(rest == data.skip(cut));
        lemma_starts_of_suffix(data, cut, data.len() as int);
        lemma_starts_take(data, data.len() as int, starts.len() - 1);
        assert(start_positions(rest).len() == 1);
    }
    assert(complete_nals(undrained(data)) == Seq::<Seq<u8>>::empty());
}

/// A start code is the bytes `00 00 01` or `00 00 00 01`, with at least four
/// bytes to look at, and nothing else is one.
pub proof fn law_start_codes_are_bytes(data: Seq<u8>, i: int)
    requires
        0 <= i,
    ensures
        i + 3 < data.len() && data[i] == 0 && data[i + 1] == 0 && data[i + 2] == 1 ==> code_len_at(
            data,
            i,
        ) == Some(3int),
        i + 3 < data.len() && data[i] == 0 && data[i + 1] == 0 && data[i + 2] == 0 && data[i + 3]
            == 1 ==> code_len_at(data, i) == Some(4int),
        code_len_at(data, i) is Some ==> i + 3 < data.len() && data[i] == 0 && data[i + 1] == 0 && (
        data[i + 2] == 1 || data[i + 2] == 0 && data[i + 3] == 1),
{
}

/// Lists of vectors and of indices show every element as it is.
pub proof fn law_lists_show_every_element(list: Seq<Vec<u8>>, indices: Seq<usize>)
    ensures
        byte_seqs(list).len() == list.len(),
        forall|k: int| 0 <= k < list.len() ==> byte_seqs(list)[k] == (#[trigger] list[k])@,
        positions(indices).len() == indices.len(),
        forall|k: int| 0 <= k < indices.len() ==> positions(indices)[k] == #[trigger] indices[k],
{
}

/// Where the `k`-th of `parts` begins in `data`, if the parts, one after the
/// other, are the end of `data`.
pub open spec fn offset_of(data: Seq<u8>, parts: Seq<Seq<u8>>, k: int) -> int {
    data.len() - parts.skip(k).flatten().len()
}

proof fn lemma_offset(data: Seq<u8>, k: int)
    requires
        0 <= k < start_positions(data).len(),
    ensures
        offset_of(data, split_nals(data), k) == start_positions(data)[k],
        split_nals(data).skip(k).flatten() == data.skip(start_positions(data)[k]),
{
    let starts = start_positions(data);
    let nals = split_nals(data);
    lemma_starts_below(data, data.len() as int);
    law_split_keeps_every_byte(data);
    lemma_flatten_split(data, k);
    assert(nals == nals.take(k) + nals.skip(k));
    lemma_flatten_concat(nals.take(k), nals.skip(k));
    let front = nals.take(k).flatten();
    let back = nals.skip(k).flatten();
    assert(front + back == data.skip(starts[0]));
    assert(starts[0] <= starts[k]);
    assert(front.len() == starts[k] - starts[0]);
    assert(back == (front + back).skip(front.len() as int));
    assert(data.skip(starts[0]).skip(front.len() as int) == data.skip(starts[k]));
}

/// The NAL units, one after the other, are the end of the data, whatever its
/// length; each of them begins with the bytes `00 00 01`, or with
/// `00 00 00 01`, with a byte behind `00 00 01`, and a zero byte in front of
/// `00 00 01` is part of the code.
pub proof fn law_nals_stand_in_the_data(data: Seq<u8>, k: int)
    requires
        0 <= k < split_nals(data).len(),
    ensures
        ({
            let nals = split_nals(data);
            let p = offset_of(data, nals, k);
            &&& 0 <= p && p + 3 < data.len()
            &&& nals.skip(k).flatten() == data.skip(p)
            &&& data[p] == 0 && data[p + 1] == 0
            &&& data[p + 2] == 1 && (p == 0 || data[p - 1] != 0) || data[p + 2] == 0 && data[p + 3]
                == 1
            &&& nals[k] == data.subrange(
                p,
                if k + 1 < nals.len() {
                    offset_of(data, nals, k + 1)
                } else {
                    data.len() as int
                },
            )
        }),
{
    let starts = start_positions(data);
    lemma_starts_below(data, data.len() as int);
    lemma_offset(data, k);
    assert(is_start(data, starts[k]));
    if k + 1 < starts.len() {
        lemma_offset(data, k + 1);
    }
}

/// Every `00 00 01` in the data with a byte behind it lies in the start code
/// of a NAL unit: one begins there or, if a zero byte stands in front, at that
/// zero byte.
pub proof fn law_every_code_starts_a_nal(data: Seq<u8>, p: int)
    requires
        0 <= p && p + 3 < data.len(),
        data[p] == 0 && data[p + 1] == 0 && data[p + 2] == 1,
    ensures
        exists|k: int|
            0 <= k < split_nals(data).len() && #[trigger] offset_of(data, split_nals(data), k) == (
            if p > 0 && data[p - 1] == 0 {
                p - 1
            } else {
                p
            }),
{
    let starts = start_positions(data);
    let begin = if p > 0 && data[p - 1] == 0 {
        p - 1
    } else {
        p
    };
    lemma_starts_below(data, data.len() as int);
    assert(code_len_at(data, begin) is Some);
    assert(is_start(data, begin));
    let k = choose|k: int| 0 <= k < starts.len() && starts[k] == begin;
    assert(starts[k] == begin);
    lemma_offset(data, k);
    assert(offset_of(data, split_nals(data), k) == begin);
}

/// Draining hands out all NAL units but the last and keeps the last; with
/// fewer than two, it hands out none and keeps everything.
pub proof fn law_drain_holds_back_the_last(data: Seq<u8>)
    ensures
        ({
            let nals = split_nals(data);
            &&& nals.len() < 2 ==> complete_nals(data).len() == 0 && undrained(data) == data
            &&& nals.len() >= 2 ==> complete_nals(data) == nals.drop_last() && undrained(data)
                == nals.last()
        }),
{
    if start_positions(data).len() > 0 {
        law_split_is_drain_and_rest(data);
        assert(complete_nals(data) == split_nals(data).drop_last());
    }
}

/// The type of a NAL unit is the header byte behind its start code modulo 32,
/// for every header byte; what does not begin with a start code and a header
/// byte has no type.
pub proof fn law_type_is_header_modulo_32(nal: Seq<u8>)
    ensures
        nal.len() >= 4 && nal[0] == 0 && nal[1] == 0 && nal[2] == 1 ==> nal_type_of(nal) == Some(
            nal[3] % 32,
        ),
        nal.len() >= 5 && nal[0] == 0 && nal[1] == 0 && nal[2] == 0 && nal[3] == 1 ==> nal_type_of(
            nal,
        ) == Some(nal[4] % 32),
        nal_type_of(nal) is Some ==> nal.len() >= 4 && nal[0] == 0 && nal[1] == 0 && (nal[2] == 1
            || nal.len() >= 5 && nal[2] == 0 && nal[3] == 1),
{
    if nal.len() >= 4 {
        let three = nal[3];
        assert(three & 0x1F == three % 32) by (bit_vector);
        if nal.len() >= 5 {
            let four = nal[4];
            assert(four & 0x1F == four % 32) by (bit_vector);
        }
    }
}

/// Every NAL unit opens with a start code, and no other start code begins
/// inside it.
pub proof fn law_nals_are_framed(data: Seq<u8>, k: int)
    requires
        0 <= k < split_nals(data).len(),
    ensures
        ({
            let nal = split_nals(data)[k];
            ||| seq![0u8, 0, 1].is_prefix_of(nal)
            ||| seq![0u8, 0, 0, 1].is_prefix_of(nal)
        }),
        forall|p: int| is_start(split_nals(data)[k], p) ==> p == 0,
        ({
            let nal = split_nals(data)[k];
            forall|p: int|
                #![trigger nal[p]]
                1 <= p && p + 3 < nal.len() && nal[p] == 0 && nal[p + 1] == 0 && nal[p + 2] == 1
                    ==> p == 1 && nal[2] == 0
        }),
{
    let starts = start_positions(data);
    let nal = split_nals(data)[k];
    let from = starts[k];
    lemma_starts_below(data, data.len() as int);
    assert(is_start(data, from));
    if k + 1 < starts.len() {
        assert(is_start(data, starts[k + 1]));
        assert(starts[k] < starts[k + 1]);
    }
    assert forall|p: int| is_start(nal, p) implies p == 0 by {
        if p > 0 {
            assert(code_len_at(nal, p) == code_len_at(data, from + p));
            assert(code_len_at(nal, p - 1) == code_len_at(data, from + p - 1));
            assert(is_start(data, from + p));
            let j = choose|j: int| 0 <= j < starts.len() && starts[j] == from + p;
            assert(starts[j] == from + p);
            if j <= k {
                assert(starts[j] <= starts[k]);
            } else if j > k + 1 {
                assert(starts[k + 1] < starts[j]);
            }
        }
    }
    assert forall|p: int|
        #![trigger nal[p]]
        1 <= p && p + 3 < nal.len() && nal[p] == 0 && nal[p + 1] == 0 && nal[p + 2]
            == 1 implies p == 1 && nal[2] == 0 by {
        assert(is_start(nal, p) || is_start(nal, p - 1));
    }
}

/// Cutting the NAL units of `data`, put one after the other, gives the same
/// units again.
pub proof fn law_split_again(data: Seq<u8>)
    ensures
        split_nals(split_nals(data).flatten()) == split_nals(data),
{
    let starts = start_positions(data);
    law_split_keeps_every_byte(data);
    if starts.len() == 0 {
        assert(split_nals(data) == Seq::<Seq<u8>>::empty());
        assert(split_nals(data).flatten() == Seq::<u8>::empty());
        assert(start_positions(Seq::<u8>::empty()) == Seq::<int>::empty());
        assert(split_nals(Seq::<u8>::empty()) == Seq::<Seq<u8>>::empty());
    } else {
        let from = starts[0];
        let rest = data.skip(from);
        let again = start_positions(rest);
        lemma_starts_below(data, data.len() as int);
        lemma_starts_below(rest, rest.len() as int);
        assert(is_start(data, from));
        lemma_starts_of_suffix(data, from, data.len() as int);
        lemma_starts_take(data, data.len() as int, 0);
        assert(starts == shifted(again, from));
        assert forall|k: int| 0 <= k < starts.len() implies split_nals(rest)[k] == split_nals(
            data,
        )[k] by {
            assert(starts[k] == again[k] + from);
            if k + 1 < starts.len() {
                assert(starts[k + 1] == again[k + 1] + from);
                assert(again[k] < again[k + 1]);
            }
            assert(split_nals(rest)[k] =~= split_nals(data)[k]);
        }
        assert(split_nals(rest) == split_nals(data));
    }
}

/// One NAL unit as an encoder writes it: a start code, a header byte, and a
/// payload that spells no start code and does not end in a zero byte.
pub open spec fn is_written_nal(nal: Seq<u8>) -> bool {
    &&& nal.len() >= 4 && nal[0] == 0 && nal[1] == 0
    &&& nal[2] == 1 || nal.len() >= 5 && nal[2] == 0 && nal[3] == 1
    &&& nal.last() != 0
    &&& forall|p: int|
        #![trigger nal[p]]
        1 <= p && p + 2 < nal.len() && nal[p] == 0 && nal[p + 1] == 0 && nal[p + 2] == 1 ==> p == 1
            && nal[2] == 0
}

/// A written NAL unit in front of others adds one start, its own.
proof fn lemma_starts_of_written(nal: Seq<u8>, rest: Seq<u8>)
    requires
        is_written_nal(nal),
        rest.len() > 0 ==> code_len_at(rest, 0) is Some,
    ensures
        start_positions(nal + rest) == seq![0int] + shifted(start_positions(rest), nal.len() as int),
{
    let data = nal + rest;
    let end = nal.len() as int;
    assert(code_len_at(data, 0) == code_len_at(nal, 0));
    assert(is_start(data, 0));
    assert forall|p: int| 1 <= p < end implies !is_start(data, p) by {
        if code_len_at(data, p) is Some {
            assert(data[p] == nal[p]);
            assert(data[end - 1] == nal.last());
            if p + 2 < end {
                if data[p + 2] != 1 {
                    assert(p + 3 < end);
                    assert(nal[p + 1] == 0 && nal[p + 2] == 0 && nal[p + 3] == 1);
                }
            }
        }
    }
    reveal_with_fuel(starts_below, 2);
    assert(starts_below(data, 1) == seq![0int]);
    lemma_no_starts_between(data, 1, end);
    assert(data.skip(end) == rest);
    if rest.len() > 0 {
        assert(code_len_at(data, end) == code_len_at(rest, 0));
        assert(data[end - 1] == nal.last());
        assert(is_start(data, end));
    }
    lemma_starts_of_suffix(data, end, data.len() as int);
}

/// A written NAL unit in front of others is cut off as it is.
proof fn lemma_split_of_written(nal: Seq<u8>, rest: Seq<u8>)
    requires
        is_written_nal(nal),
        rest.len() > 0 ==> code_len_at(rest, 0) is Some,
    ensures
        split_nals(nal + rest) == seq![nal] + split_nals(rest),
{
    let data = nal + rest;
    let end = nal.len() as int;
    let starts = start_positions(data);
    let late = start_positions(rest);
    lemma_starts_of_written(nal, rest);
    lemma_starts_below(rest, rest.len() as int);
    if rest.len() > 0 {
        assert(is_start(rest, 0));
        assert(late.contains(0));
        assert(late[0] == 0);
    }
    assert(starts.len() == late.len() + 1);
    assert forall|k: int| 0 <= k < starts.len() implies #[trigger] split_nals(data)[k] == (
    seq![nal] + split_nals(rest))[k] by {
        if k == 0 {
            if late.len() > 0 {
                assert(starts[1] == late[0] + end);
            }
            assert(split_nals(data)[0] =~= nal);
        } else {
            assert(starts[k] == late[k - 1] + end);
            if k + 1 < starts.len() {
                assert(starts[k + 1] == late[k] + end);
                assert(late[k - 1] < late[k]);
            }
            assert(split_nals(data)[k] =~= split_nals(rest)[k - 1]);
        }
    }
    assert(split_nals(data) =~= seq![nal] + split_nals(rest));
}

/// What is written can be read back: cutting written NAL units, put one after
/// the other, gives exactly these units.
pub proof fn law_split_reads_back(nals: Seq<Seq<u8>>)
    requires
        forall|k: int| 0 <= k < nals.len() ==> is_written_nal(#[trigger] nals[k]),
    ensures
        split_nals(nals.flatten()) == nals,
    decreases nals.len(),
{
    let data = nals.flatten();
    if nals.len() == 0 {
        assert(start_positions(data) == Seq::<int>::empty());
        assert(split_nals(data) == nals);
    } else {
        let nal = nals[0];
        let others = nals.drop_first();
        let rest = others.flatten();
        assert(is_written_nal(nals[0]));
        assert forall|k: int| 0 <= k < others.len() implies is_written_nal(#[trigger] others[k]) by {
            assert(is_written_nal(nals[k + 1]));
        }
        law_split_reads_back(others);
        assert(data == nal + rest);
        if others.len() > 0 {
            assert(is_written_nal(others[0]));
            assert(rest == others[0] + others.drop_first().flatten());
            assert(code_len_at(rest, 0) == code_len_at(others[0], 0));
        }
        lemma_split_of_written(nal, rest);
        assert(seq![nal] + others == nals);
    }
}

/// Of written NAL units that arrive one after the other, all but the last are
/// complete, and the last waits for a further start code.
pub proof fn law_drain_reads_back(nals: Seq<Seq<u8>>)
    requires
        nals.len() > 0,
        forall|k: int| 0 <= k < nals.len() ==> is_written_nal(#[trigger] nals[k]),
    ensures
        complete_nals(nals.flatten()) == nals.drop_last(),
        undrained(nals.flatten()) == nals.last(),
{
    let data = nals.flatten();
    let starts = start_positions(data);
    law_split_reads_back(nals);
    assert(split_nals(data).len() == starts.len());
    law_split_is_drain_and_rest(data);
    assert(complete_nals(data) == split_nals(data).drop_last());
    if nals.len() == 1 {
        assert(is_written_nal(nals[0]));
        assert(data == nals[0] + nals.drop_first().flatten());
        assert(data == nals[0]);
    }
}

} // verus!
