use vstd::prelude::*;

use crate::error::AppError;
use crate::merge::SyntheticMasterPlaylist;

verus! {

/// A decoded manifest, reduced to the stream URIs that it references.
#[derive(Debug, Clone)]
pub enum Playlist {
    /// A master playlist: one URI per variant, in order.
    MasterPlaylist { variant_uris: Vec<String> },
    /// A media playlist: one URI per segment, in order.
    MediaPlaylist { segment_uris: Vec<String> },
}

/// The views of a list of strings.
pub open spec fn string_views(v: Seq<String>) -> Seq<Seq<char>> {
    v.map_values(|s: String| s@)
}

impl View for Playlist {
    /// Whether it is a master playlist, and its stream URIs in order.
    type V = (bool, Seq<Seq<char>>);

    open spec fn view(&self) -> (bool, Seq<Seq<char>>) {
        match self {
            Playlist::MasterPlaylist { variant_uris } => (true, string_views(variant_uris@)),
            Playlist::MediaPlaylist { segment_uris } => (false, string_views(segment_uris@)),
        }
    }
}

/// What the m3u8 codec decodes `bytes` into: whether it is a master playlist
/// and its stream URIs in order, or `None` where it is no playlist.
pub uninterp spec fn m3u8_decoded(bytes: Seq<u8>) -> Option<(bool, Seq<Seq<char>>)>;

/// The text that the m3u8 codec writes for a master playlist of the given
/// version, flag and `(uri, bandwidth)` variants, with no other attribute.
pub uninterp spec fn m3u8_master_text(
    version: usize,
    independent_segments: bool,
    variants: Seq<(Seq<char>, u64)>,
) -> Seq<u8>;

/// Relies on `m3u8_rs::parse_playlist_res`: it decodes manifest bytes into a
/// master playlist (whose variants carry URIs) or a media playlist (whose
/// segments carry URIs), depending on the bytes alone, or fails.
#[verifier::external_body]
fn decode_m3u8(bytes: &[u8]) -> (r: Result<Playlist, String>)
    ensures
        match r {
            Ok(p) => m3u8_decoded(bytes@) == Some(p@),
            Err(_) => m3u8_decoded(bytes@) is None,
        },
{
    match m3u8_rs::parse_playlist_res(bytes) {
        Ok(m3u8_rs::Playlist::MasterPlaylist(pl)) => Ok(Playlist::MasterPlaylist {
            variant_uris: pl.variants.into_iter().map(|v| v.uri).collect(),
        }),
        Ok(m3u8_rs::Playlist::MediaPlaylist(pl)) => Ok(Playlist::MediaPlaylist {
            segment_uris: pl.segments.into_iter().map(|s| s.uri).collect(),
        }),
        Err(e) => Err(e.to_string()),
    }
}

/// Relies on `m3u8_rs::MasterPlaylist::write_to`: it writes the text of a
/// master playlist built from the version, the flag and the variants' URI and
/// bandwidth, all other attributes left empty. It fails only where the writer
/// fails, and writing into a `Vec<u8>` does not fail.
#[verifier::external_body]
fn encode_m3u8_master(p: &SyntheticMasterPlaylist) -> (r: Result<Vec<u8>, String>)
    ensures
        r is Ok,
        r is Ok ==> r->Ok_0@ == m3u8_master_text(p.version, p.independent_segments, p.pairs()),
{
    let pl = m3u8_rs::MasterPlaylist {
        version: Some(p.version),
        independent_segments: p.independent_segments,
        variants: p.variants.iter().map(|v| m3u8_rs::VariantStream {
            uri: v.uri.clone(),
            bandwidth: v.bandwidth,
            ..Default::default()
        }).collect(),
        ..Default::default()
    };
    let mut out: Vec<u8> = Vec::new();
    pl.write_to(&mut out).map(|_| out).map_err(|e| e.to_string())
}

/// Turns the result of a manifest download into a playlist: a transport
/// failure is reported as such, a body the codec refuses as a codec error.
pub fn process_m3u8(fetched: Result<Vec<u8>, String>) -> (r: Result<Playlist, AppError>)
    ensures
        match fetched {
            Err(m) => r == Err::<Playlist, AppError>(AppError::ReqwestError(m)),
            Ok(b) => match r {
                Ok(p) => m3u8_decoded(b@) == Some(p@),
                Err(e) => m3u8_decoded(b@) is None && e is M3u8Error,
            },
        },
{
    match fetched {
        Err(m) => Err(AppError::ReqwestError(m)),
        Ok(b) => match decode_m3u8(b.as_slice()) {
            Ok(p) => Ok(p),
            Err(e) => Err(AppError::M3u8Error(e)),
        },
    }
}

/// The stream URIs of a playlist, in order: one per variant of a master
/// playlist, one per segment of a media playlist.
pub fn stream_uris(playlist: &Playlist) -> (r: Vec<String>)
    ensures
        string_views(r@) == playlist@.1,
{
    let uris = match playlist {
        Playlist::MasterPlaylist { variant_uris } => variant_uris,
        Playlist::MediaPlaylist { segment_uris } => segment_uris,
    };
    let mut r: Vec<String> = Vec::new();
    let mut i: usize = 0;
    while i < uris.len()
        invariant
            i <= uris.len(),
            r@ == uris@.take(i as int),
        decreases uris.len() - i,
    {
        r.push(uris[i].clone());
        assert(r@ =~= uris@.take(i + 1));
        i = i + 1;
    }
    assert(uris@.take(i as int) =~= uris@);
    r
}

/// The text of the merged playlist, as the m3u8 codec writes it. Encoding
/// always succeeds.
pub fn encode_playlist(playlist: &SyntheticMasterPlaylist) -> (r: Result<Vec<u8>, AppError>)
    ensures
        r is Ok,
        r is Ok ==> r->Ok_0@ == m3u8_master_text(
            playlist.version,
            playlist.independent_segments,
            playlist.pairs(),
        ),
{
    match encode_m3u8_master(playlist) {
        Ok(b) => Ok(b),
        Err(e) => Err(AppError::IoError(e)),
    }
}

} // verus!
