//! The collection model: a typed in-memory tree describing an audio track
//! collection and its playlist hierarchy.
//!
//! All numeric-looking track attributes are kept as opaque strings so that a
//! re-emitted document reproduces the source values exactly; declared entry
//! counts are stored verbatim as read and never recomputed from the actual
//! children.
//!
//! Each type has a ghost mirror (`...V`) reached through `DeepView`; contracts
//! elsewhere in the crate speak of those mirrors.

use vstd::prelude::*;

verus! {

broadcast use vstd::std_specs::vec::group_vec_axioms, vstd::seq::group_seq_axioms;

/// Informational product data carried on the document root.
#[derive(Debug, Clone, PartialEq)]
pub struct Product {
    pub name: String,
    pub version: String,
    pub company: String,
}

pub struct ProductV {
    pub name: Seq<char>,
    pub version: Seq<char>,
    pub company: Seq<char>,
}

impl DeepView for Product {
    type V = ProductV;

    open spec fn deep_view(&self) -> ProductV {
        ProductV { name: self.name@, version: self.version@, company: self.company@ }
    }
}

/// A tempo marker of a track; a flat bag of opaque attribute strings.
#[derive(Debug, Clone, PartialEq)]
pub struct Tempo {
    pub inizio: String,
    pub bpm: String,
    pub metro: String,
    pub battito: String,
}

pub struct TempoV {
    pub inizio: Seq<char>,
    pub bpm: Seq<char>,
    pub metro: Seq<char>,
    pub battito: Seq<char>,
}

impl DeepView for Tempo {
    type V = TempoV;

    open spec fn deep_view(&self) -> TempoV {
        TempoV {
            inizio: self.inizio@,
            bpm: self.bpm@,
            metro: self.metro@,
            battito: self.battito@,
        }
    }
}

/// A cue point of a track; a flat bag of opaque attribute strings.
#[derive(Debug, Clone, PartialEq)]
pub struct PositionMark {
    pub name: String,
    pub mark_type: String,
    pub start: String,
    pub num: String,
    pub red: String,
    pub green: String,
    pub blue: String,
}

pub struct PositionMarkV {
    pub name: Seq<char>,
    pub mark_type: Seq<char>,
    pub start: Seq<char>,
    pub num: Seq<char>,
    pub red: Seq<char>,
    pub green: Seq<char>,
    pub blue: Seq<char>,
}

impl DeepView for PositionMark {
    type V = PositionMarkV;

    open spec fn deep_view(&self) -> PositionMarkV {
        PositionMarkV {
            name: self.name@,
            mark_type: self.mark_type@,
            start: self.start@,
            num: self.num@,
            red: self.red@,
            green: self.green@,
            blue: self.blue@,
        }
    }
}

/// One audio item of the collection. `location` is a file-scheme URI string,
/// the join key to the filesystem; every other attribute is opaque.
#[derive(Debug, Clone, PartialEq)]
pub struct Track {
    pub track_id: String,
    pub name: String,
    pub artist: String,
    pub composer: String,
    pub album: String,
    pub grouping: String,
    pub genre: String,
    pub kind: String,
    pub size: String,
    pub total_time: String,
    pub disc_number: String,
    pub track_number: String,
    pub year: String,
    pub average_bpm: String,
    pub date_added: String,
    pub bit_rate: String,
    pub sample_rate: String,
    pub comments: String,
    pub play_count: String,
    pub rating: String,
    pub location: String,
    pub remixer: String,
    pub tonality: String,
    pub label: String,
    pub mix: String,
    pub tempos: Vec<Tempo>,
    pub position_marks: Vec<PositionMark>,
}

pub struct TrackV {
    pub track_id: Seq<char>,
    pub name: Seq<char>,
    pub artist: Seq<char>,
    pub composer: Seq<char>,
    pub album: Seq<char>,
    pub grouping: Seq<char>,
    pub genre: Seq<char>,
    pub kind: Seq<char>,
    pub size: Seq<char>,
    pub total_time: Seq<char>,
    pub disc_number: Seq<char>,
    pub track_number: Seq<char>,
    pub year: Seq<char>,
    pub average_bpm: Seq<char>,
    pub date_added: Seq<char>,
    pub bit_rate: Seq<char>,
    pub sample_rate: Seq<char>,
    pub comments: Seq<char>,
    pub play_count: Seq<char>,
    pub rating: Seq<char>,
    pub location: Seq<char>,
    pub remixer: Seq<char>,
    pub tonality: Seq<char>,
    pub label: Seq<char>,
    pub mix: Seq<char>,
    pub tempos: Seq<TempoV>,
    pub position_marks: Seq<PositionMarkV>,
}

impl DeepView for Track {
    type V = TrackV;

    open spec fn deep_view(&self) -> TrackV {
        TrackV {
            track_id: self.track_id@,
            name: self.name@,
            artist: self.artist@,
            composer: self.composer@,
            album: self.album@,
            grouping: self.grouping@,
            genre: self.genre@,
            kind: self.kind@,
            size: self.size@,
            total_time: self.total_time@,
            disc_number: self.disc_number@,
            track_number: self.track_number@,
            year: self.year@,
            average_bpm: self.average_bpm@,
            date_added: self.date_added@,
            bit_rate: self.bit_rate@,
            sample_rate: self.sample_rate@,
            comments: self.comments@,
            play_count: self.play_count@,
            rating: self.rating@,
            location: self.location@,
            remixer: self.remixer@,
            tonality: self.tonality@,
            label: self.label@,
            mix: self.mix@,
            tempos: self.tempos.deep_view(),
            position_marks: self.position_marks.deep_view(),
        }
    }
}

/// A non-owning reference from a playlist node to a track, by integer key.
#[derive(Debug, Clone, Copy, PartialEq, Eq, Structural)]
pub struct NodeTrackRef {
    pub key: u32,
}

impl DeepView for NodeTrackRef {
    type V = NodeTrackRef;

    open spec fn deep_view(&self) -> NodeTrackRef {
        *self
    }
}

/// What a playlist node carries: a folder holds child nodes, a playlist holds
/// track references. An absent child collection stays absent (`None`); it is
/// never defaulted to an empty one, because empty and absent re-serialize
/// differently.
#[derive(Debug, PartialEq)]
pub enum NodeContent {
    Folder(Option<Vec<PlaylistNode>>),
    Playlist(Option<Vec<NodeTrackRef>>),
}

/// One node of the playlist tree. The declared `count`, `key_type` and
/// `entries` attributes are kept verbatim when present.
#[derive(Debug, PartialEq)]
pub struct PlaylistNode {
    pub name: String,
    pub count: Option<u32>,
    pub key_type: Option<u32>,
    pub entries: Option<u32>,
    pub content: NodeContent,
}

pub enum NodeContentV {
    Folder(Option<Seq<NodeV>>),
    Playlist(Option<Seq<NodeTrackRef>>),
}

pub struct NodeV {
    pub name: Seq<char>,
    pub count: Option<u32>,
    pub key_type: Option<u32>,
    pub entries: Option<u32>,
    pub content: NodeContentV,
}

pub open spec fn nodes_deep_view(s: Seq<PlaylistNode>) -> Seq<NodeV>
    decreases s,
{
    if s.len() == 0 {
        Seq::empty()
    } else {
        seq![node_deep_view(s[0])] + nodes_deep_view(s.drop_first())
    }
}

pub open spec fn node_deep_view(n: PlaylistNode) -> NodeV
    decreases n,
{
    NodeV {
        name: n.name@,
        count: n.count,
        key_type: n.key_type,
        entries: n.entries,
        content: match n.content {
            NodeContent::Folder(children) => NodeContentV::Folder(
                match children {
                    Some(v) => Some(nodes_deep_view(v@)),
                    None => None,
                },
            ),
            NodeContent::Playlist(refs) => NodeContentV::Playlist(
                match refs {
                    Some(v) => Some(v.deep_view()),
                    None => None,
                },
            ),
        },
    }
}

/// The element-wise reading of `nodes_deep_view`.
pub proof fn lemma_nodes_deep_view(s: Seq<PlaylistNode>)
    ensures
        nodes_deep_view(s).len() == s.len(),
        forall|i: int| 0 <= i < s.len() ==> nodes_deep_view(s)[i] == node_deep_view(s[i]),
    decreases s,
{
    if s.len() > 0 {
        lemma_nodes_deep_view(s.drop_first());
    }
}

impl DeepView for PlaylistNode {
    type V = NodeV;

    open spec fn deep_view(&self) -> NodeV {
        node_deep_view(*self)
    }
}

/// The root aggregate: product info, the ordered track collection with its
/// declared entry count, and the playlist tree root.
#[derive(Debug, PartialEq)]
pub struct CollectionDocument {
    pub version: String,
    pub product: Product,
    pub collection_entries: u32,
    pub tracks: Vec<Track>,
    pub playlist_root: PlaylistNode,
}

pub struct DocV {
    pub version: Seq<char>,
    pub product: ProductV,
    pub collection_entries: u32,
    pub tracks: Seq<TrackV>,
    pub playlist_root: NodeV,
}

impl DeepView for CollectionDocument {
    type V = DocV;

    open spec fn deep_view(&self) -> DocV {
        DocV {
            version: self.version@,
            product: self.product.deep_view(),
            collection_entries: self.collection_entries,
            tracks: self.tracks.deep_view(),
            playlist_root: self.playlist_root.deep_view(),
        }
    }
}

} // verus!
