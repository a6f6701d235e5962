//! Grouping NAL units into access units.
//!
//! Parameter sets and other non-picture units are held back until the next
//! coded picture (NAL type 1 or 5), which closes the access unit.

pub mod laws;

use crate::annex_b::{
    byte_seqs, complete_nals, drain_nals, nal_type, nal_type_of, undrained,
};
use vstd::prelude::*;

verus! {

/// One coded picture with everything in front of it, Annex-B framed.
#[derive(Debug)]
pub struct AccessUnit {
    pub data: Vec<u8>,
    /// The picture is an instantaneous decoder refresh.
    pub is_keyframe: bool,
}

impl View for AccessUnit {
    type V = (Seq<u8>, bool);

    open spec fn view(&self) -> (Seq<u8>, bool) {
        (self.data@, self.is_keyframe)
    }
}

/// The contents of a list of access units.
pub open spec fn unit_views(list: Seq<AccessUnit>) -> Seq<(Seq<u8>, bool)> {
    list.map_values(|u: AccessUnit| u@)
}

/// The contents of a list show the data and the keyframe mark of each unit.
pub proof fn law_views_show_every_unit(list: Seq<AccessUnit>)
    ensures
        unit_views(list).len() == list.len(),
        forall|k: int|
            0 <= k < list.len() ==> unit_views(list)[k].0 == (#[trigger] list[k]).data@
                && unit_views(list)[k].1 == list[k].is_keyframe,
{
}

/// A NAL unit of this type is a coded picture.
pub open spec fn is_picture_type(ty: u8) -> bool {
    ty == 1 || ty == 5
}

/// The access unit that `nal` closes, with `pending` held back so far.
pub open spec fn closed_unit(pending: Seq<u8>, nal: Seq<u8>) -> Option<(Seq<u8>, bool)> {
    match nal_type_of(nal) {
        Some(ty) => if is_picture_type(ty) {
            Some((pending + nal, ty == 5))
        } else {
            None
        },
        None => None,
    }
}

/// What is held back after `nal`, with `pending` held back so far.
pub open spec fn pending_after(pending: Seq<u8>, nal: Seq<u8>) -> Seq<u8> {
    match nal_type_of(nal) {
        Some(ty) => if is_picture_type(ty) {
            Seq::empty()
        } else {
            pending + nal
        },
        None => pending,
    }
}

/// What is held back after all of `nals`.
pub open spec fn pending_after_all(pending: Seq<u8>, nals: Seq<Seq<u8>>) -> Seq<u8>
    decreases nals.len(),
{
    if nals.len() == 0 {
        pending
    } else {
        pending_after(pending_after_all(pending, nals.drop_last()), nals.last())
    }
}

/// The access units that `nals` close.
pub open spec fn closed_units(pending: Seq<u8>, nals: Seq<Seq<u8>>) -> Seq<(Seq<u8>, bool)>
    decreases nals.len(),
{
    if nals.len() == 0 {
        Seq::empty()
    } else {
        let before = closed_units(pending, nals.drop_last());
        match closed_unit(pending_after_all(pending, nals.drop_last()), nals.last()) {
            Some(unit) => before.push(unit),
            None => before,
        }
    }
}

/// Collects NAL units into access units.
pub struct AccessUnitBuilder {
    pending: Vec<u8>,
}

impl View for AccessUnitBuilder {
    type V = Seq<u8>;

    /// The bytes held back for the next access unit.
    closed spec fn view(&self) -> Seq<u8> {
        self.pending@
    }
}

impl Default for AccessUnitBuilder {
    /// A builder that holds nothing back.
    fn default() -> (builder: Self)
        ensures
            builder@ == Seq::<u8>::empty(),
    {
        AccessUnitBuilder { pending: Vec::new() }
    }
}

impl AccessUnitBuilder {
    /// Takes one NAL unit.  Gives the access unit that it closes, if it is a
    /// coded picture; holds it back if it is another unit; ignores it if it
    /// has no type.
    pub fn push_nal(&mut self, nal: &[u8]) -> (unit: Option<AccessUnit>)
        ensures
            unit is Some <==> closed_unit(old(self)@, nal@) is Some,
            unit matches Some(u) ==> closed_unit(old(self)@, nal@) == Some(u@),
            final(self)@ == pending_after(old(self)@, nal@),
            unit matches Some(u) ==> u.data@ == old(self)@ + nal@ && final(self)@.len() == 0 && (
            u.is_keyframe <==> nal_type_of(nal@) == Some(5u8)),
            unit is Some <==> nal_type_of(nal@) == Some(1u8) || nal_type_of(nal@) == Some(5u8),
            unit is None && nal_type_of(nal@) is Some ==> final(self)@ == old(self)@ + nal@,
            nal_type_of(nal@) is None ==> final(self)@ == old(self)@,
    {
        let ty: u8 = match nal_type(nal) {
            Some(ty) => ty,
            None => return None,
        };
        let ghost held = self.pending@;
        self.pending.extend_from_slice(nal);
        assert(self.pending@ == held + nal@);
        if ty == 1 || ty == 5 {
            let mut data: Vec<u8> = Vec::new();
            std::mem::swap(&mut data, &mut self.pending);
            assert(self.pending@ == Seq::<u8>::empty());
            Some(AccessUnit { data, is_keyframe: ty == 5 })
        } else {
            None
        }
    }

    /// Takes NAL units one after the other and gives the access units that
    /// they close, in the same order.
    pub fn push_nals(&mut self, nals: &Vec<Vec<u8>>) -> (units: Vec<AccessUnit>)
        ensures
            unit_views(units@) == closed_units(old(self)@, byte_seqs(nals@)),
            final(self)@ == pending_after_all(old(self)@, byte_seqs(nals@)),
            units@.len() == closed_units(old(self)@, byte_seqs(nals@)).len(),
            forall|k: int|
                0 <= k < units@.len() ==> {
                    let unit = closed_units(old(self)@, byte_seqs(nals@))[k];
                    (#[trigger] units@[k]).data@ == unit.0 && units@[k].is_keyframe == unit.1
                },
    {
        let ghost held = self@;
        let ghost seqs = byte_seqs(nals@);
        let mut units: Vec<AccessUnit> = Vec::new();
        let mut idx: usize = 0;
        assert(unit_views(units@) == closed_units(held, seqs.take(0)));
        while idx < nals.len()
            invariant
                idx <= nals@.len(),
                seqs == byte_seqs(nals@),
                unit_views(units@) == closed_units(held, seqs.take(idx as int)),
                self@ == pending_after_all(held, seqs.take(idx as int)),
            decreases nals@.len() - idx,
        {
            proof {
                assert(seqs.take(idx + 1).drop_last() == seqs.take(idx as int));
                assert(seqs.take(idx + 1).last() == nals@[idx as int]@);
            }
            let ghost before = units@;
            if let Some(unit) = self.push_nal(nals[idx].as_slice()) {
                units.push(unit);
                assert(unit_views(units@) == unit_views(before).push(unit@));
            }
            idx += 1;
        }
        assert(seqs.take(idx as int) == seqs);
        proof {
            law_views_show_every_unit(units@);
        }
        units
    }
}

/// Parses an Annex-B stream that arrives in chunks.
pub struct AnnexBStreamParser {
    buffer: Vec<u8>,
    builder: AccessUnitBuilder,
}

/// What a stream parser remembers between two chunks.
pub struct ParserState {
    /// Bytes that belong to no complete NAL unit yet.
    pub buffer: Seq<u8>,
    /// Bytes of NAL units that belong to no complete access unit yet.
    pub pending: Seq<u8>,
}

impl ParserState {
    /// The state in which nothing has arrived.
    pub open spec fn initial() -> ParserState {
        ParserState { buffer: Seq::empty(), pending: Seq::empty() }
    }

    /// The NAL units that `chunk` completes.
    pub open spec fn nals(self, chunk: Seq<u8>) -> Seq<Seq<u8>> {
        complete_nals(self.buffer + chunk)
    }

    /// The access units that `chunk` completes.
    pub open spec fn units(self, chunk: Seq<u8>) -> Seq<(Seq<u8>, bool)> {
        closed_units(self.pending, self.nals(chunk))
    }

    /// The state after `chunk`.
    pub open spec fn after(self, chunk: Seq<u8>) -> ParserState {
        ParserState {
            buffer: undrained(self.buffer + chunk),
            pending: pending_after_all(self.pending, self.nals(chunk)),
        }
    }
}

impl View for AnnexBStreamParser {
    type V = ParserState;

    closed spec fn view(&self) -> ParserState {
        ParserState { buffer: self.buffer@, pending: self.builder@ }
    }
}

impl AnnexBStreamParser {
    /// A parser to which nothing has arrived.
    pub fn new() -> (parser: Self)
        ensures
            parser@ == ParserState::initial(),
    {
        AnnexBStreamParser { buffer: Vec::new(), builder: AccessUnitBuilder::default() }
    }

    /// Takes the next bytes of the stream and gives the access units that
    /// they complete.
    pub fn push(&mut self, chunk: &[u8]) -> (units: Vec<AccessUnit>)
        ensures
            unit_views(units@) == old(self)@.units(chunk@),
            final(self)@ == old(self)@.after(chunk@),
            units@.len() == old(self)@.units(chunk@).len(),
            forall|k: int|
                0 <= k < units@.len() ==> {
                    let unit = old(self)@.units(chunk@)[k];
                    (#[trigger] units@[k]).data@ == unit.0 && units@[k].is_keyframe == unit.1
                },
    {
        let ghost held = self.buffer@;
        self.buffer.extend_from_slice(chunk);
        assert(self.buffer@ == held + chunk@);
        let nals = drain_nals(&mut self.buffer);
        self.builder.push_nals(&nals)
    }
}

} // verus!
