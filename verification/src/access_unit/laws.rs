//! What holds of grouping NAL units, whatever arrives and in whatever pieces.

use crate::access_unit::{
    closed_unit, closed_units, pending_after, pending_after_all, ParserState,
};
use crate::annex_b::laws::{
    is_written_nal, law_drain_holds_back_the_last, law_drain_is_chunk_independent,
    law_drain_reads_back, law_split_is_drain_and_rest, law_split_reads_back,
    law_type_is_header_modulo_32,
};
use crate::annex_b::{nal_type_of, split_nals, start_positions};
use vstd::prelude::*;

verus! {

/// The header byte decides, which is the fourth byte behind `00 00 01` and the
/// fifth behind `00 00 00 01`: a NAL unit closes an access unit exactly if its
/// header modulo 32 is 1 or 5, and a keyframe exactly if it is 5.  The unit is
/// what was held back and behind it the NAL unit, and nothing is held back any
/// more; otherwise the same bytes are held back.
pub proof fn law_header_decides(pending: Seq<u8>, nal: Seq<u8>, at: int)
    requires
        at == 3 && nal.len() > 3 && nal[0] == 0 && nal[1] == 0 && nal[2] == 1 || at == 4
            && nal.len() > 4 && nal[0] == 0 && nal[1] == 0 && nal[2] == 0 && nal[3] == 1,
    ensures
        nal[at] % 32 == 5 ==> closed_unit(pending, nal) == Some((pending + nal, true)),
        nal[at] % 32 == 1 ==> closed_unit(pending, nal) == Some((pending + nal, false)),
        nal[at] % 32 == 1 || nal[at] % 32 == 5 ==> pending_after(pending, nal).len() == 0,
        nal[at] % 32 != 1 && nal[at] % 32 != 5 ==> closed_unit(pending, nal) is None
            && pending_after(pending, nal) == pending + nal,
{
    law_type_is_header_modulo_32(nal);
}

/// What has no start code and header byte closes nothing and is not held back.
pub proof fn law_without_header_nothing_happens(pending: Seq<u8>, nal: Seq<u8>)
    requires
        !(nal.len() > 3 && nal[0] == 0 && nal[1] == 0 && nal[2] == 1),
        !(nal.len() > 4 && nal[0] == 0 && nal[1] == 0 && nal[2] == 0 && nal[3] == 1),
    ensures
        closed_unit(pending, nal) is None,
        pending_after(pending, nal) == pending,
{
    law_type_is_header_modulo_32(nal);
}

/// NAL units that are no pictures close nothing; the picture behind them
/// closes one access unit, which is what was held back before, these NAL units
/// as far as they have a type, and the picture.
pub proof fn law_picture_takes_what_came_before(
    pending: Seq<u8>,
    held: Seq<Seq<u8>>,
    picture: Seq<u8>,
)
    requires
        picture_nals(held).len() == 0,
        nal_type_of(picture) == Some(1u8) || nal_type_of(picture) == Some(5u8),
    ensures
        closed_units(pending, held).len() == 0,
        pending_after_all(pending, held) == pending + typed_nals(held).flatten(),
        closed_units(pending, held.push(picture)) == seq![
            (
                pending + typed_nals(held).flatten() + picture,
                nal_type_of(picture) == Some(5u8),
            ),
        ],
        pending_after_all(pending, held.push(picture)).len() == 0,
{
    law_one_unit_per_picture(pending, held);
    law_units_keep_every_byte(pending, held);
    let bytes = unit_bytes(closed_units(pending, held));
    assert(bytes == Seq::<Seq<u8>>::empty());
    assert(bytes.flatten() == Seq::<u8>::empty());
    assert(pending_after_all(pending, held) == bytes.flatten() + pending_after_all(pending, held));
    let all = held.push(picture);
    assert(all.drop_last() == held);
    assert(all.last() == picture);
    assert(closed_units(pending, held) == Seq::<(Seq<u8>, bool)>::empty());
}

/// A chunk completes all NAL units of what is buffered and the chunk but the
/// last, which is buffered again; while there are fewer than two, everything
/// is.  What the completed NAL units do to the builder is all that happens to
/// it.
pub proof fn law_chunk_completes_all_but_the_last(state: ParserState, chunk: Seq<u8>)
    ensures
        ({
            let arrived = state.buffer + chunk;
            let nals = split_nals(arrived);
            &&& nals.len() < 2 ==> {
                &&& state.units(chunk).len() == 0
                &&& state.after(chunk).buffer == arrived
                &&& state.after(chunk).pending == state.pending
            }
            &&& nals.len() >= 2 ==> {
                &&& state.units(chunk) == closed_units(state.pending, nals.drop_last())
                &&& state.after(chunk).buffer == nals.last()
                &&& state.after(chunk).pending == pending_after_all(
                    state.pending,
                    nals.drop_last(),
                )
            }
        }),
        ParserState::initial().buffer.len() == 0,
        ParserState::initial().pending.len() == 0,
{
    law_drain_holds_back_the_last(state.buffer + chunk);
}

/// Taking NAL units in two batches is the same as taking them in one.
pub proof fn law_batches_of_nals(pending: Seq<u8>, first: Seq<Seq<u8>>, second: Seq<Seq<u8>>)
    ensures
        pending_after_all(pending, first + second) == pending_after_all(
            pending_after_all(pending, first),
            second,
        ),
        closed_units(pending, first + second) == closed_units(pending, first)
            + closed_units(pending_after_all(pending, first), second),
    decreases second.len(),
{
    let both = first + second;
    if second.len() == 0 {
        assert(both == first);
    } else {
        law_batches_of_nals(pending, first, second.drop_last());
        assert(both.drop_last() == first + second.drop_last());
        assert(both.last() == second.last());
    }
}

/// A stream that arrives in two chunks gives the same access units, and
/// leaves the parser in the same state, as when it arrives in one.
pub proof fn law_stream_is_chunk_independent(
    state: ParserState,
    first: Seq<u8>,
    second: Seq<u8>,
)
    ensures
        state.units(first + second) == state.units(first) + state.after(first).units(second),
        state.after(first + second) == state.after(first).after(second),
{
    let whole = state.buffer + first;
    assert(state.buffer + (first + second) == whole + second);
    law_drain_is_chunk_independent(whole, second);
    law_batches_of_nals(state.pending, state.nals(first), state.after(first).nals(second));
}

/// The state of a parser to which `chunks` have arrived.
pub open spec fn state_after_chunks(chunks: Seq<Seq<u8>>) -> ParserState
    decreases chunks.len(),
{
    if chunks.len() == 0 {
        ParserState::initial()
    } else {
        state_after_chunks(chunks.drop_last()).after(chunks.last())
    }
}

/// The access units of a parser to which `chunks` have arrived.
pub open spec fn units_of_chunks(chunks: Seq<Seq<u8>>) -> Seq<(Seq<u8>, bool)>
    decreases chunks.len(),
{
    if chunks.len() == 0 {
        Seq::empty()
    } else {
        units_of_chunks(chunks.drop_last()) + state_after_chunks(chunks.drop_last()).units(
            chunks.last(),
        )
    }
}

/// However a stream is cut into chunks, the access units are those of the
/// whole stream.
pub proof fn law_chunking_does_not_matter(chunks: Seq<Seq<u8>>)
    ensures
        units_of_chunks(chunks) == ParserState::initial().units(chunks.flatten()),
        state_after_chunks(chunks) == ParserState::initial().after(chunks.flatten()),
    decreases chunks.len(),
{
    let start = ParserState::initial();
    if chunks.len() == 0 {
        let nothing = Seq::<u8>::empty();
        assert(start.buffer + chunks.flatten() == nothing);
        assert(start_positions(nothing).len() == 0);
        assert(start.nals(chunks.flatten()) == Seq::<Seq<u8>>::empty());
    } else {
        let before = chunks.drop_last();
        law_chunking_does_not_matter(before);
        assert(chunks == before.push(chunks.last()));
        before.lemma_flatten_push(chunks.last());
        law_stream_is_chunk_independent(start, before.flatten(), chunks.last());
    }
}

/// The NAL units that have a type; a bare start code has none.
pub open spec fn typed_nals(nals: Seq<Seq<u8>>) -> Seq<Seq<u8>> {
    nals.filter(|nal: Seq<u8>| nal_type_of(nal) is Some)
}

/// The coded pictures among `nals`.
pub open spec fn picture_nals(nals: Seq<Seq<u8>>) -> Seq<Seq<u8>> {
    nals.filter(
        |nal: Seq<u8>|
            nal_type_of(nal) == Some(1u8) || nal_type_of(nal) == Some(5u8),
    )
}

/// The bytes of access units.
pub open spec fn unit_bytes(units: Seq<(Seq<u8>, bool)>) -> Seq<Seq<u8>> {
    units.map_values(|unit: (Seq<u8>, bool)| unit.0)
}

/// No byte of a typed NAL unit is lost, added or moved: the access units, one
/// after the other, and behind them what is held back, are what was held back
/// before and behind it the typed NAL units.
pub proof fn law_units_keep_every_byte(pending: Seq<u8>, nals: Seq<Seq<u8>>)
    ensures
        unit_bytes(closed_units(pending, nals)).flatten() + pending_after_all(
            pending,
            nals,
        ) == pending + typed_nals(nals).flatten(),
    decreases nals.len(),
{
    reveal(Seq::filter);
    let units = closed_units(pending, nals);
    if nals.len() == 0 {
        assert(unit_bytes(units).flatten() == Seq::<u8>::empty());
        assert(typed_nals(nals).flatten() == Seq::<u8>::empty());
    } else {
        let before = nals.drop_last();
        let nal = nals.last();
        let held = pending_after_all(pending, before);
        law_units_keep_every_byte(pending, before);
        if nal_type_of(nal) is Some {
            typed_nals(before).lemma_flatten_push(nal);
            assert(typed_nals(nals) == typed_nals(before).push(nal));
        } else {
            assert(typed_nals(nals) == typed_nals(before));
        }
        if let Some(unit) = closed_unit(held, nal) {
            let earlier = closed_units(pending, before);
            assert(unit_bytes(units) == unit_bytes(earlier).push(unit.0));
            unit_bytes(earlier).lemma_flatten_push(unit.0);
        }
        let old_bytes = unit_bytes(closed_units(pending, before)).flatten();
        let old_typed = typed_nals(before).flatten();
        assert(old_bytes + held == pending + old_typed);
        assert((old_bytes + held) + nal == old_bytes + (held + nal));
        assert((pending + old_typed) + nal == pending + (old_typed + nal));
        assert((old_bytes + (held + nal)) + Seq::<u8>::empty() == old_bytes + (held + nal));
    }
}

/// There is one access unit for each coded picture, in the same order; it
/// ends with that picture, and it is a keyframe exactly if the picture is of
/// type 5.
pub proof fn law_one_unit_per_picture(pending: Seq<u8>, nals: Seq<Seq<u8>>)
    ensures
        closed_units(pending, nals).len() == picture_nals(nals).len(),
        forall|k: int|
            0 <= k < picture_nals(nals).len() ==> {
                let unit = #[trigger] closed_units(pending, nals)[k];
                let picture = picture_nals(nals)[k];
                &&& picture.is_suffix_of(unit.0)
                &&& unit.1 == (nal_type_of(picture) == Some(5u8))
            },
    decreases nals.len(),
{
    reveal(Seq::filter);
    if nals.len() > 0 {
        let before = nals.drop_last();
        let held = pending_after_all(pending, before);
        law_one_unit_per_picture(pending, before);
        if let Some(unit) = closed_unit(held, nals.last()) {
            assert(nals.last().is_suffix_of(held + nals.last()));
        }
    }
}

/// A whole file gives the access units that the same bytes give as a stream,
/// and then what its last NAL unit closes, which a stream still waits for.
pub proof fn law_file_and_stream(data: Seq<u8>)
    requires
        start_positions(data).len() > 0,
    ensures
        closed_units(Seq::empty(), split_nals(data))
            == ParserState::initial().units(data) + closed_units(
            ParserState::initial().after(data).pending,
            seq![data.skip(start_positions(data).last())],
        ),
{
    let start = ParserState::initial();
    let last = data.skip(start_positions(data).last());
    assert(start.buffer + data == data);
    law_split_is_drain_and_rest(data);
    assert(split_nals(data) == start.nals(data) + seq![last]);
    law_batches_of_nals(Seq::empty(), start.nals(data), seq![last]);
}

/// What an encoder writes is what is published: NAL units that arrive in
/// whatever chunks give the access units that they close, up to the last NAL
/// unit, which waits for a further start code; as a file they give all.
pub proof fn law_reads_back_what_was_written(nals: Seq<Seq<u8>>, chunks: Seq<Seq<u8>>)
    requires
        nals.len() > 0,
        forall|k: int|
            0 <= k < nals.len() ==> is_written_nal(#[trigger] nals[k]),
        chunks.flatten() == nals.flatten(),
    ensures
        units_of_chunks(chunks) == closed_units(Seq::empty(), nals.drop_last()),
        state_after_chunks(chunks).buffer == nals.last(),
        closed_units(Seq::empty(), split_nals(nals.flatten()))
            == closed_units(Seq::empty(), nals),
{
    let start = ParserState::initial();
    law_chunking_does_not_matter(chunks);
    assert(start.buffer + nals.flatten() == nals.flatten());
    law_drain_reads_back(nals);
    law_split_reads_back(nals);
}

} // verus!
