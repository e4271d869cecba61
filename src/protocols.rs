use crate::crypto::HEADER_LEN;
use crate::dim::{
    overlay_views, resolve_overlays, resolve_spec, ContextView, DimContext, DimOverlay, OverlayView,
};
use crate::models::CryptoHeader;
use crate::text::{find_char, first_index_of, strip_prefix};
use crate::AideError;
use vstd::prelude::*;

verus! {

/// A `qid://qca-rb/` request: the alias before the first `/`, the payload after it.
#[derive(Clone, Debug, PartialEq, Eq)]
pub struct QidRequest {
    pub srid_alias: String,
    pub payload: String,
}

/// The request variants an address can be classified into.
#[derive(Clone, Debug, PartialEq, Eq)]
pub enum FiidProtocol {
    Qid(QidRequest),
    Qia(String),
    Qed(String),
}

/// The routing record that binds an alias, its framing header and the merged context.
#[derive(Clone, Debug, PartialEq, Eq)]
pub struct SulEntry {
    pub srid_alias: String,
    pub crypto_header: CryptoHeader,
    pub dim: DimContext,
}

/// The mathematical model of a `FiidProtocol`.
pub enum ProtocolView {
    Qid { alias: Seq<char>, payload: Seq<char> },
    Qia(Seq<char>),
    Qed(Seq<char>),
}

impl View for FiidProtocol {
    type V = ProtocolView;

    open spec fn view(&self) -> ProtocolView {
        match self {
            FiidProtocol::Qid(q) => ProtocolView::Qid { alias: q.srid_alias@, payload: q.payload@ },
            FiidProtocol::Qia(s) => ProtocolView::Qia(s@),
            FiidProtocol::Qed(s) => ProtocolView::Qed(s@),
        }
    }
}

/// The mathematical model of a `SulEntry`.
pub struct EntryView {
    pub srid_alias: Seq<char>,
    pub crypto_header: CryptoHeader,
    pub dim: ContextView,
}

impl View for SulEntry {
    type V = EntryView;

    open spec fn view(&self) -> EntryView {
        EntryView { srid_alias: self.srid_alias@, crypto_header: self.crypto_header, dim: self.dim@ }
    }
}

pub open spec fn qid_prefix() -> Seq<char> {
    "qid://qca-rb/"@
}

pub open spec fn qia_prefix() -> Seq<char> {
    "qia://"@
}

pub open spec fn qed_prefix() -> Seq<char> {
    "qed://"@
}

/// The text before the first `/`, or all of `rest` when it has none.
pub open spec fn alias_part(rest: Seq<char>) -> Seq<char> {
    match first_index_of(rest, '/') {
        Some(i) => rest.take(i),
        None => rest,
    }
}

/// The text after the first `/`, or nothing when `rest` has none.
pub open spec fn payload_part(rest: Seq<char>) -> Seq<char> {
    match first_index_of(rest, '/') {
        Some(i) => rest.skip(i + 1),
        None => Seq::empty(),
    }
}

/// Classification of an address, trying the `qid`, `qia` and `qed` prefixes in
/// that order. A `qid` address with nothing after its prefix has no alias.
pub open spec fn parse_spec(uri: Seq<char>) -> Result<ProtocolView, AideError> {
    if qid_prefix().is_prefix_of(uri) {
        let rest = uri.skip(qid_prefix().len() as int);
        if rest.len() == 0 {
            Err(AideError::MissingAlias)
        } else {
            Ok(ProtocolView::Qid { alias: alias_part(rest), payload: payload_part(rest) })
        }
    } else if qia_prefix().is_prefix_of(uri) {
        Ok(ProtocolView::Qia(uri.skip(qia_prefix().len() as int)))
    } else if qed_prefix().is_prefix_of(uri) {
        Ok(ProtocolView::Qed(uri.skip(qed_prefix().len() as int)))
    } else {
        Err(AideError::InvalidUri)
    }
}

/// A parse result with its request replaced by the request's model.
pub open spec fn protocol_result_view(r: Result<FiidProtocol, AideError>) -> Result<ProtocolView, AideError> {
    match r {
        Ok(p) => Ok(p@),
        Err(e) => Err(e),
    }
}

/// The record an assembly yields: a `Qid` address, then a six-byte header, then
/// the merged overlays; the first failure is the result.
pub open spec fn build_spec(uri: Seq<char>, header: Seq<u8>, overlays: Seq<OverlayView>, now: u64) -> Result<EntryView, AideError> {
    match parse_spec(uri) {
        Err(e) => Err(e),
        Ok(ProtocolView::Qid { alias, payload }) => match CryptoHeader::decode_spec(header) {
            Err(e) => Err(e),
            Ok(h) => Ok(EntryView { srid_alias: alias, crypto_header: h, dim: resolve_spec(overlays, now) }),
        },
        Ok(_) => Err(AideError::UnsupportedProtocol),
    }
}

/// An assembly result with its entry replaced by the entry's model.
pub open spec fn entry_result_view(r: Result<SulEntry, AideError>) -> Result<EntryView, AideError> {
    match r {
        Ok(e) => Ok(e@),
        Err(e) => Err(e),
    }
}

/// Assembly is the composition of its parts: an entry built from a `Qid`
/// address and a six-byte header carries the parsed alias, the decoded header
/// and the context the resolver computes for the same overlays and time.
pub proof fn lemma_build_composes(uri: Seq<char>, header: Seq<u8>, overlays: Seq<OverlayView>, now: u64)
    requires
        parse_spec(uri) is Ok,
        parse_spec(uri)->Ok_0 is Qid,
        header.len() == HEADER_LEN,
    ensures
        build_spec(uri, header, overlays, now) is Ok,
        build_spec(uri, header, overlays, now)->Ok_0 == (EntryView {
            srid_alias: parse_spec(uri)->Ok_0->Qid_alias,
            crypto_header: CryptoHeader::decode_spec(header)->Ok_0,
            dim: resolve_spec(overlays, now),
        }),
{
}

/// Only `Qid` addresses can be assembled: a `Qia` or `Qed` address fails with
/// `UnsupportedProtocol` whatever the header and overlays.
pub proof fn lemma_build_rejects_non_qid(uri: Seq<char>, header: Seq<u8>, overlays: Seq<OverlayView>, now: u64)
    requires
        parse_spec(uri) is Ok,
        !(parse_spec(uri)->Ok_0 is Qid),
    ensures
        build_spec(uri, header, overlays, now) == Err::<EntryView, AideError>(AideError::UnsupportedProtocol),
{
}

/// Classifies `uri` into a request variant.
pub fn parse_fiid_uri(uri: &str) -> (r: Result<FiidProtocol, AideError>)
    ensures
        protocol_result_view(r) == parse_spec(uri@),
{
    if let Some(rest) = strip_prefix(uri, "qid://qca-rb/") {
        if rest.is_empty() {
            return Err(AideError::MissingAlias);
        }
        let n = rest.unicode_len();
        let (alias, payload) = match find_char(rest, '/') {
            Some(i) => (rest.substring_char(0, i), rest.substring_char(i + 1, n)),
            None => (rest, rest.substring_char(n, n)),
        };
        assert(alias@ == alias_part(rest@));
        assert(payload@ =~= payload_part(rest@));
        return Ok(
            FiidProtocol::Qid(QidRequest { srid_alias: alias.to_owned(), payload: payload.to_owned() }),
        );
    }
    if let Some(rest) = strip_prefix(uri, "qia://") {
        return Ok(FiidProtocol::Qia(rest.to_owned()));
    }
    if let Some(rest) = strip_prefix(uri, "qed://") {
        return Ok(FiidProtocol::Qed(rest.to_owned()));
    }
    Err(AideError::InvalidUri)
}

/// Assembles the routing record for a `Qid` address, a header and an overlay set.
pub fn build_sul_entry(uri: &str, header_bytes: &[u8], overlays: Vec<DimOverlay>, now: u64) -> (r:
    Result<SulEntry, AideError>)
    ensures
        entry_result_view(r) == build_spec(uri@, header_bytes@, overlay_views(overlays@), now),
{
    let proto = parse_fiid_uri(uri)?;
    let alias = match proto {
        FiidProtocol::Qid(q) => q.srid_alias,
        _ => return Err(AideError::UnsupportedProtocol),
    };
    let header = CryptoHeader::decode(header_bytes)?;
    let dim_ctx = resolve_overlays(overlays, now);
    Ok(SulEntry { srid_alias: alias, crypto_header: header, dim: dim_ctx })
}

} // verus!
