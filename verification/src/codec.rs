//! The document codec: the exact correspondence between a
//! `CollectionDocument` and its element-tree form — fixed element order,
//! fixed attribute order, optional attributes and child collections present
//! exactly when the model holds them — together with the conversions in both
//! directions and the round-trip argument.

use vstd::prelude::*;

use crate::model::CollectionDocument;
use crate::model::NodeContent;
use crate::model::NodeTrackRef;
use crate::model::PlaylistNode;
use crate::model::PositionMark;
use crate::model::Product;
use crate::model::Tempo;
use crate::model::Track;
use crate::num::dec_str;
use crate::num::u32_to_chars;
use crate::xml::chars_to_string;
use crate::xml::FormatError;
use crate::xml::XmlAttr;
use crate::xml::XmlElem;

verus! {

broadcast use vstd::std_specs::vec::group_vec_axioms, vstd::seq::group_seq_axioms;

/// One attribute with exactly this name and this raw value.
pub open spec fn attr_is(a: XmlAttr, name: Seq<char>, value: Seq<char>) -> bool {
    a.name@ == name && a.value@ == value
}

pub open spec fn product_elem(e: XmlElem, p: Product) -> bool {
    &&& e.name@ == "PRODUCT"@
    &&& e.attrs@.len() == 3
    &&& attr_is(e.attrs@[0], "Name"@, p.name@)
    &&& attr_is(e.attrs@[1], "Version"@, p.version@)
    &&& attr_is(e.attrs@[2], "Company"@, p.company@)
    &&& e.children@.len() == 0
}

pub open spec fn tempo_elem(e: XmlElem, t: Tempo) -> bool {
    &&& e.name@ == "TEMPO"@
    &&& e.attrs@.len() == 4
    &&& attr_is(e.attrs@[0], "Inizio"@, t.inizio@)
    &&& attr_is(e.attrs@[1], "Bpm"@, t.bpm@)
    &&& attr_is(e.attrs@[2], "Metro"@, t.metro@)
    &&& attr_is(e.attrs@[3], "Battito"@, t.battito@)
    &&& e.children@.len() == 0
}

pub open spec fn mark_elem(e: XmlElem, m: PositionMark) -> bool {
    &&& e.name@ == "POSITION_MARK"@
    &&& e.attrs@.len() == 7
    &&& attr_is(e.attrs@[0], "Name"@, m.name@)
    &&& attr_is(e.attrs@[1], "Type"@, m.mark_type@)
    &&& attr_is(e.attrs@[2], "Start"@, m.start@)
    &&& attr_is(e.attrs@[3], "Num"@, m.num@)
    &&& attr_is(e.attrs@[4], "Red"@, m.red@)
    &&& attr_is(e.attrs@[5], "Green"@, m.green@)
    &&& attr_is(e.attrs@[6], "Blue"@, m.blue@)
    &&& e.children@.len() == 0
}

pub open spec fn track_elem(e: XmlElem, t: Track) -> bool {
    &&& e.name@ == "TRACK"@
    &&& e.attrs@.len() == 25
    &&& attr_is(e.attrs@[0], "TrackID"@, t.track_id@)
    &&& attr_is(e.attrs@[1], "Name"@, t.name@)
    &&& attr_is(e.attrs@[2], "Artist"@, t.artist@)
    &&& attr_is(e.attrs@[3], "Composer"@, t.composer@)
    &&& attr_is(e.attrs@[4], "Album"@, t.album@)
    &&& attr_is(e.attrs@[5], "Grouping"@, t.grouping@)
    &&& attr_is(e.attrs@[6], "Genre"@, t.genre@)
    &&& attr_is(e.attrs@[7], "Kind"@, t.kind@)
    &&& attr_is(e.attrs@[8], "Size"@, t.size@)
    &&& attr_is(e.attrs@[9], "TotalTime"@, t.total_time@)
    &&& attr_is(e.attrs@[10], "DiscNumber"@, t.disc_number@)
    &&& attr_is(e.attrs@[11], "TrackNumber"@, t.track_number@)
    &&& attr_is(e.attrs@[12], "Year"@, t.year@)
    &&& attr_is(e.attrs@[13], "AverageBpm"@, t.average_bpm@)
    &&& attr_is(e.attrs@[14], "DateAdded"@, t.date_added@)
    &&& attr_is(e.attrs@[15], "BitRate"@, t.bit_rate@)
    &&& attr_is(e.attrs@[16], "SampleRate"@, t.sample_rate@)
    &&& attr_is(e.attrs@[17], "Comments"@, t.comments@)
    &&& attr_is(e.attrs@[18], "PlayCount"@, t.play_count@)
    &&& attr_is(e.attrs@[19], "Rating"@, t.rating@)
    &&& attr_is(e.attrs@[20], "Location"@, t.location@)
    &&& attr_is(e.attrs@[21], "Remixer"@, t.remixer@)
    &&& attr_is(e.attrs@[22], "Tonality"@, t.tonality@)
    &&& attr_is(e.attrs@[23], "Label"@, t.label@)
    &&& attr_is(e.attrs@[24], "Mix"@, t.mix@)
    &&& e.children@.len() == t.tempos@.len() + t.position_marks@.len()
    &&& forall|i: int|
        0 <= i < t.tempos@.len() ==> tempo_elem(#[trigger] e.children@[i], t.tempos@[i])
    &&& forall|i: int|
        0 <= i < t.position_marks@.len() ==> mark_elem(
            #[trigger] e.children@[t.tempos@.len() + i],
            t.position_marks@[i],
        )
}

pub open spec fn noderef_elem(e: XmlElem, r: NodeTrackRef) -> bool {
    &&& e.name@ == "TRACK"@
    &&& e.attrs@.len() == 1
    &&& attr_is(e.attrs@[0], "Key"@, dec_str(r.key as nat))
    &&& e.children@.len() == 0
}

/// The wire discriminator of a playlist node: `0` for a folder, `1` for a
/// playlist.
pub open spec fn content_code(c: NodeContent) -> Seq<char> {
    match c {
        NodeContent::Folder(_) => "0"@,
        NodeContent::Playlist(_) => "1"@,
    }
}

pub open spec fn opt_count(o: Option<u32>) -> int {
    if o is Some {
        1
    } else {
        0
    }
}

/// The optional `Count`, `KeyType`, `Entries` attributes, present (in that
/// order, after `Name` and `Type`) exactly when the node holds them.
pub open spec fn node_opt_attrs(e: XmlElem, n: PlaylistNode) -> bool {
    let c = opt_count(n.count);
    let k = opt_count(n.key_type);
    &&& e.attrs@.len() == 2 + c + k + opt_count(n.entries)
    &&& (n.count matches Some(v) ==> attr_is(e.attrs@[2], "Count"@, dec_str(v as nat)))
    &&& (n.key_type matches Some(v) ==> attr_is(e.attrs@[2 + c], "KeyType"@, dec_str(v as nat)))
    &&& (n.entries matches Some(v) ==> attr_is(
        e.attrs@[2 + c + k],
        "Entries"@,
        dec_str(v as nat),
    ))
}

pub open spec fn node_elem(e: XmlElem, n: PlaylistNode) -> bool
    decreases e,
{
    &&& e.name@ == "NODE"@
    &&& e.attrs@.len() >= 2
    &&& attr_is(e.attrs@[0], "Name"@, n.name@)
    &&& attr_is(e.attrs@[1], "Type"@, content_code(n.content))
    &&& node_opt_attrs(e, n)
    &&& match n.content {
        NodeContent::Folder(children) => match children {
            Some(v) => nodes_elems(e.children@, v@),
            None => e.children@.len() == 0,
        },
        NodeContent::Playlist(refs) => match refs {
            Some(v) => e.children@.len() == v@.len() && forall|i: int|
                0 <= i < v@.len() ==> noderef_elem(#[trigger] e.children@[i], v@[i]),
            None => e.children@.len() == 0,
        },
    }
}

pub open spec fn nodes_elems(es: Seq<XmlElem>, ns: Seq<PlaylistNode>) -> bool
    decreases es,
{
    &&& es.len() == ns.len()
    &&& es.len() > 0 ==> node_elem(es.last(), ns.last()) && nodes_elems(
        es.drop_last(),
        ns.drop_last(),
    )
}

pub open spec fn collection_elem(e: XmlElem, entries: u32, tracks: Seq<Track>) -> bool {
    &&& e.name@ == "COLLECTION"@
    &&& e.attrs@.len() == 1
    &&& attr_is(e.attrs@[0], "Entries"@, dec_str(entries as nat))
    &&& e.children@.len() == tracks.len()
    &&& forall|i: int| 0 <= i < tracks.len() ==> track_elem(#[trigger] e.children@[i], tracks[i])
}

pub open spec fn playlists_elem(e: XmlElem, root: PlaylistNode) -> bool {
    &&& e.name@ == "PLAYLISTS"@
    &&& e.attrs@.len() == 0
    &&& e.children@.len() == 1
    &&& node_elem(e.children@[0], root)
}

/// The whole correspondence: root, product, collection, playlists, in that
/// order.
pub open spec fn doc_elem(e: XmlElem, d: CollectionDocument) -> bool {
    &&& e.name@ == "DJ_PLAYLISTS"@
    &&& e.attrs@.len() == 1
    &&& attr_is(e.attrs@[0], "Version"@, d.version@)
    &&& e.children@.len() == 3
    &&& product_elem(e.children@[0], d.product)
    &&& collection_elem(e.children@[1], d.collection_entries, d.tracks@)
    &&& playlists_elem(e.children@[2], d.playlist_root)
}

/// A canonical in-memory tree: a child collection that is present is
/// nonempty. (An empty collection and an absent one would re-serialize
/// identically, so only the absent form is canonical; decode never produces
/// the other.)
pub open spec fn node_wf(n: PlaylistNode) -> bool
    decreases n,
{
    match n.content {
        NodeContent::Folder(children) => match children {
            Some(v) => v@.len() > 0 && nodes_wf(v@),
            None => true,
        },
        NodeContent::Playlist(refs) => match refs {
            Some(v) => v@.len() > 0,
            None => true,
        },
    }
}

pub open spec fn nodes_wf(ns: Seq<PlaylistNode>) -> bool
    decreases ns,
{
    ns.len() > 0 ==> node_wf(ns.last()) && nodes_wf(ns.drop_last())
}

pub open spec fn doc_wf(d: CollectionDocument) -> bool {
    node_wf(d.playlist_root)
}

proof fn lemma_literal_facts()
    ensures
        "Count"@ != "KeyType"@,
        "Count"@ != "Entries"@,
        "KeyType"@ != "Entries"@,
        "0"@ != "1"@,
        "TEMPO"@ != "POSITION_MARK"@,
{
    reveal_strlit("Count");
    reveal_strlit("KeyType");
    reveal_strlit("Entries");
    reveal_strlit("0");
    reveal_strlit("1");
    reveal_strlit("TEMPO");
    reveal_strlit("POSITION_MARK");
    assert("Count"@.len() == 5);
    assert("KeyType"@.len() == 7);
    assert("Entries"@.len() == 7);
    assert("KeyType"@[0] == 'K');
    assert("Entries"@[0] == 'E');
    assert("0"@[0] == '0');
    assert("1"@[0] == '1');
    assert("TEMPO"@.len() == 5);
    assert("POSITION_MARK"@.len() == 13);
}

fn str_attr(name: &str, value: &String) -> (r: XmlAttr)
    ensures
        attr_is(r, name@, value@),
{
    XmlAttr { name: name.to_owned(), value: value.clone() }
}

fn u32_attr(name: &str, value: u32) -> (r: XmlAttr)
    ensures
        attr_is(r, name@, dec_str(value as nat)),
{
    let chars = u32_to_chars(value);
    XmlAttr { name: name.to_owned(), value: chars_to_string(&chars) }
}

fn product_to_elem(p: &Product) -> (r: XmlElem)
    ensures
        product_elem(r, *p),
{
    let mut attrs: Vec<XmlAttr> = Vec::new();
    attrs.push(str_attr("Name", &p.name));
    attrs.push(str_attr("Version", &p.version));
    attrs.push(str_attr("Company", &p.company));
    XmlElem { name: "PRODUCT".to_owned(), attrs, children: Vec::new() }
}

fn tempo_to_elem(t: &Tempo) -> (r: XmlElem)
    ensures
        tempo_elem(r, *t),
{
    let mut attrs: Vec<XmlAttr> = Vec::new();
    attrs.push(str_attr("Inizio", &t.inizio));
    attrs.push(str_attr("Bpm", &t.bpm));
    attrs.push(str_attr("Metro", &t.metro));
    attrs.push(str_attr("Battito", &t.battito));
    XmlElem { name: "TEMPO".to_owned(), attrs, children: Vec::new() }
}

fn mark_to_elem(m: &PositionMark) -> (r: XmlElem)
    ensures
        mark_elem(r, *m),
{
    let mut attrs: Vec<XmlAttr> = Vec::new();
    attrs.push(str_attr("Name", &m.name));
    attrs.push(str_attr("Type", &m.mark_type));
    attrs.push(str_attr("Start", &m.start));
    attrs.push(str_attr("Num", &m.num));
    attrs.push(str_attr("Red", &m.red));
    attrs.push(str_attr("Green", &m.green));
    attrs.push(str_attr("Blue", &m.blue));
    XmlElem { name: "POSITION_MARK".to_owned(), attrs, children: Vec::new() }
}

fn track_to_elem(t: &Track) -> (r: XmlElem)
    ensures
        track_elem(r, *t),
{
    let mut attrs: Vec<XmlAttr> = Vec::new();
    attrs.push(str_attr("TrackID", &t.track_id));
    attrs.push(str_attr("Name", &t.name));
    attrs.push(str_attr("Artist", &t.artist));
    attrs.push(str_attr("Composer", &t.composer));
    attrs.push(str_attr("Album", &t.album));
    attrs.push(str_attr("Grouping", &t.grouping));
    attrs.push(str_attr("Genre", &t.genre));
    attrs.push(str_attr("Kind", &t.kind));
    attrs.push(str_attr("Size", &t.size));
    attrs.push(str_attr("TotalTime", &t.total_time));
    attrs.push(str_attr("DiscNumber", &t.disc_number));
    attrs.push(str_attr("TrackNumber", &t.track_number));
    attrs.push(str_attr("Year", &t.year));
    attrs.push(str_attr("AverageBpm", &t.average_bpm));
    attrs.push(str_attr("DateAdded", &t.date_added));
    attrs.push(str_attr("BitRate", &t.bit_rate));
    attrs.push(str_attr("SampleRate", &t.sample_rate));
    attrs.push(str_attr("Comments", &t.comments));
    attrs.push(str_attr("PlayCount", &t.play_count));
    attrs.push(str_attr("Rating", &t.rating));
    attrs.push(str_attr("Location", &t.location));
    attrs.push(str_attr("Remixer", &t.remixer));
    attrs.push(str_attr("Tonality", &t.tonality));
    attrs.push(str_attr("Label", &t.label));
    attrs.push(str_attr("Mix", &t.mix));
    let mut children: Vec<XmlElem> = Vec::new();
    let mut i: usize = 0;
    while i < t.tempos.len()
        invariant
            i <= t.tempos@.len(),
            children@.len() == i,
            forall|j: int| 0 <= j < i ==> tempo_elem(#[trigger] children@[j], t.tempos@[j]),
        decreases t.tempos@.len() - i,
    {
        children.push(tempo_to_elem(&t.tempos[i]));
        i += 1;
    }
    let mut k: usize = 0;
    while k < t.position_marks.len()
        invariant
            k <= t.position_marks@.len(),
            children@.len() == t.tempos@.len() + k,
            forall|j: int|
                0 <= j < t.tempos@.len() ==> tempo_elem(#[trigger] children@[j], t.tempos@[j]),
            forall|j: int|
                0 <= j < k ==> mark_elem(
                    #[trigger] children@[t.tempos@.len() + j],
                    t.position_marks@[j],
                ),
        decreases t.position_marks@.len() - k,
    {
        children.push(mark_to_elem(&t.position_marks[k]));
        k += 1;
    }
    XmlElem { name: "TRACK".to_owned(), attrs, children }
}

fn noderef_to_elem(r: &NodeTrackRef) -> (e: XmlElem)
    ensures
        noderef_elem(e, *r),
{
    let mut attrs: Vec<XmlAttr> = Vec::new();
    attrs.push(u32_attr("Key", r.key));
    XmlElem { name: "TRACK".to_owned(), attrs, children: Vec::new() }
}

fn node_to_elem(n: &PlaylistNode) -> (e: XmlElem)
    ensures
        node_elem(e, *n),
    decreases *n,
{
    let mut attrs: Vec<XmlAttr> = Vec::new();
    attrs.push(str_attr("Name", &n.name));
    let type_value = match &n.content {
        NodeContent::Folder(_) => "0",
        NodeContent::Playlist(_) => "1",
    };
    let tv = type_value.to_owned();
    attrs.push(XmlAttr { name: "Type".to_owned(), value: tv });
    match &n.count {
        Some(v) => {
            attrs.push(u32_attr("Count", *v));
        },
        None => {},
    }
    match &n.key_type {
        Some(v) => {
            attrs.push(u32_attr("KeyType", *v));
        },
        None => {},
    }
    match &n.entries {
        Some(v) => {
            attrs.push(u32_attr("Entries", *v));
        },
        None => {},
    }
    let mut children: Vec<XmlElem> = Vec::new();
    match &n.content {
        NodeContent::Folder(subnodes) => match subnodes {
            Some(v) => {
                let mut i: usize = 0;
                while i < v.len()
                    invariant
                        n.content == NodeContent::Folder(Some(*v)),
                        i <= v@.len(),
                        children@.len() == i,
                        forall|j: int|
                            0 <= j < i ==> node_elem(#[trigger] children@[j], v@[j]),
                    decreases v@.len() - i,
                {
                    proof {
                        let opt = n.content->Folder_0;
                        assert(decreases_to!(*n => n.content));
                        assert(decreases_to!(n.content => n.content->Folder_0));
                        assert(decreases_to!(opt => opt->0));
                        assert(opt->0 == *v);
                        assert(decreases_to!(*v => v@));
                        assert(decreases_to!(v@ => v@[i as int]));
                    }
                    children.push(node_to_elem(&v[i]));
                    i += 1;
                }
                proof {
                    lemma_nodes_elems_intro(children@, v@);
                }
            },
            None => {},
        },
        NodeContent::Playlist(refs) => match refs {
            Some(v) => {
                let mut i: usize = 0;
                while i < v.len()
                    invariant
                        i <= v@.len(),
                        children@.len() == i,
                        forall|j: int|
                            0 <= j < i ==> noderef_elem(#[trigger] children@[j], v@[j]),
                    decreases v@.len() - i,
                {
                    children.push(noderef_to_elem(&v[i]));
                    i += 1;
                }
            },
            None => {},
        },
    }
    XmlElem { name: "NODE".to_owned(), attrs, children }
}

/// Element-wise `node_elem` on equal-length sequences gives `nodes_elems`.
proof fn lemma_nodes_elems_intro(es: Seq<XmlElem>, ns: Seq<PlaylistNode>)
    requires
        es.len() == ns.len(),
        forall|j: int| 0 <= j < ns.len() ==> node_elem(#[trigger] es[j], ns[j]),
    ensures
        nodes_elems(es, ns),
    decreases es,
{
    if es.len() > 0 {
        lemma_nodes_elems_intro(es.drop_last(), ns.drop_last());
    }
}

/// Builds the element tree of a document: fixed element order (product,
/// collection, playlists), fixed attribute order, optional attributes only
/// where the model holds them.
pub fn doc_to_tree(d: &CollectionDocument) -> (r: XmlElem)
    ensures
        doc_elem(r, *d),
{
    let mut attrs: Vec<XmlAttr> = Vec::new();
    attrs.push(str_attr("Version", &d.version));
    let mut children: Vec<XmlElem> = Vec::new();
    children.push(product_to_elem(&d.product));
    let mut coll_attrs: Vec<XmlAttr> = Vec::new();
    coll_attrs.push(u32_attr("Entries", d.collection_entries));
    let mut coll_children: Vec<XmlElem> = Vec::new();
    let mut i: usize = 0;
    while i < d.tracks.len()
        invariant
            i <= d.tracks@.len(),
            coll_children@.len() == i,
            forall|j: int| 0 <= j < i ==> track_elem(#[trigger] coll_children@[j], d.tracks@[j]),
        decreases d.tracks@.len() - i,
    {
        coll_children.push(track_to_elem(&d.tracks[i]));
        i += 1;
    }
    children.push(
        XmlElem { name: "COLLECTION".to_owned(), attrs: coll_attrs, children: coll_children },
    );
    let mut pl_children: Vec<XmlElem> = Vec::new();
    pl_children.push(node_to_elem(&d.playlist_root));
    children.push(
        XmlElem { name: "PLAYLISTS".to_owned(), attrs: Vec::new(), children: pl_children },
    );
    XmlElem { name: "DJ_PLAYLISTS".to_owned(), attrs, children }
}

fn str_eq(a: &String, b: &str) -> (r: bool)
    ensures
        r == (a@ == b@),
{
    let bo = b.to_owned();
    a.eq(&bo)
}

fn parse_u32_value(v: &String) -> (r: Option<u32>)
    ensures
        r is Some ==> v@ == dec_str(r.unwrap() as nat),
        r is Some <==> crate::num::is_dec_u32(v@),
{
    let cs = crate::xml::str_to_chars(v.as_str());
    let n = cs.len();
    let r = crate::num::chars_to_u32(cs.as_slice(), 0, n);
    proof {
        assert(cs@.subrange(0, n as int) =~= v@);
    }
    r
}

fn product_of_elem(e: &XmlElem) -> (r: Result<Product, FormatError>)
    ensures
        r is Ok ==> product_elem(*e, r.unwrap()),
        (exists|p: Product| product_elem(*e, p)) ==> r is Ok,
{
    if !str_eq(&e.name, "PRODUCT") || e.attrs.len() != 3 || e.children.len() != 0 {
        return Err(FormatError::Malformed);
    }
    if !str_eq(&e.attrs[0].name, "Name") || !str_eq(&e.attrs[1].name, "Version") || !str_eq(
        &e.attrs[2].name,
        "Company",
    ) {
        return Err(FormatError::Malformed);
    }
    Ok(
        Product {
            name: e.attrs[0].value.clone(),
            version: e.attrs[1].value.clone(),
            company: e.attrs[2].value.clone(),
        },
    )
}

fn tempo_of_elem(e: &XmlElem) -> (r: Result<Tempo, FormatError>)
    ensures
        r is Ok ==> tempo_elem(*e, r.unwrap()),
        (exists|t: Tempo| tempo_elem(*e, t)) ==> r is Ok,
{
    if !str_eq(&e.name, "TEMPO") || e.attrs.len() != 4 || e.children.len() != 0 {
        return Err(FormatError::Malformed);
    }
    if !str_eq(&e.attrs[0].name, "Inizio") || !str_eq(&e.attrs[1].name, "Bpm") || !str_eq(
        &e.attrs[2].name,
        "Metro",
    ) || !str_eq(&e.attrs[3].name, "Battito") {
        return Err(FormatError::Malformed);
    }
    Ok(
        Tempo {
            inizio: e.attrs[0].value.clone(),
            bpm: e.attrs[1].value.clone(),
            metro: e.attrs[2].value.clone(),
            battito: e.attrs[3].value.clone(),
        },
    )
}

fn mark_of_elem(e: &XmlElem) -> (r: Result<PositionMark, FormatError>)
    ensures
        r is Ok ==> mark_elem(*e, r.unwrap()),
        (exists|m: PositionMark| mark_elem(*e, m)) ==> r is Ok,
{
    if !str_eq(&e.name, "POSITION_MARK") || e.attrs.len() != 7 || e.children.len() != 0 {
        return Err(FormatError::Malformed);
    }
    if !str_eq(&e.attrs[0].name, "Name") || !str_eq(&e.attrs[1].name, "Type") || !str_eq(
        &e.attrs[2].name,
        "Start",
    ) || !str_eq(&e.attrs[3].name, "Num") || !str_eq(&e.attrs[4].name, "Red") || !str_eq(
        &e.attrs[5].name,
        "Green",
    ) || !str_eq(&e.attrs[6].name, "Blue") {
        return Err(FormatError::Malformed);
    }
    Ok(
        PositionMark {
            name: e.attrs[0].value.clone(),
            mark_type: e.attrs[1].value.clone(),
            start: e.attrs[2].value.clone(),
            num: e.attrs[3].value.clone(),
            red: e.attrs[4].value.clone(),
            green: e.attrs[5].value.clone(),
            blue: e.attrs[6].value.clone(),
        },
    )
}

fn track_of_elem(e: &XmlElem) -> (r: Result<Track, FormatError>)
    ensures
        r is Ok ==> track_elem(*e, r.unwrap()),
        (exists|t: Track| track_elem(*e, t)) ==> r is Ok,
{
    if !str_eq(&e.name, "TRACK") || e.attrs.len() != 25 {
        return Err(FormatError::Malformed);
    }
    if !str_eq(&e.attrs[0].name, "TrackID") || !str_eq(&e.attrs[1].name, "Name") || !str_eq(
        &e.attrs[2].name,
        "Artist",
    ) || !str_eq(&e.attrs[3].name, "Composer") || !str_eq(&e.attrs[4].name, "Album") || !str_eq(
        &e.attrs[5].name,
        "Grouping",
    ) || !str_eq(&e.attrs[6].name, "Genre") || !str_eq(&e.attrs[7].name, "Kind") || !str_eq(
        &e.attrs[8].name,
        "Size",
    ) || !str_eq(&e.attrs[9].name, "TotalTime") || !str_eq(&e.attrs[10].name, "DiscNumber")
        || !str_eq(&e.attrs[11].name, "TrackNumber") || !str_eq(&e.attrs[12].name, "Year")
        || !str_eq(&e.attrs[13].name, "AverageBpm") || !str_eq(&e.attrs[14].name, "DateAdded")
        || !str_eq(&e.attrs[15].name, "BitRate") || !str_eq(&e.attrs[16].name, "SampleRate")
        || !str_eq(&e.attrs[17].name, "Comments") || !str_eq(&e.attrs[18].name, "PlayCount")
        || !str_eq(&e.attrs[19].name, "Rating") || !str_eq(&e.attrs[20].name, "Location")
        || !str_eq(&e.attrs[21].name, "Remixer") || !str_eq(&e.attrs[22].name, "Tonality")
        || !str_eq(&e.attrs[23].name, "Label") || !str_eq(&e.attrs[24].name, "Mix") {
        return Err(FormatError::Malformed);
    }
    let mut tempos: Vec<Tempo> = Vec::new();
    let mut marks: Vec<PositionMark> = Vec::new();
    let mut i: usize = 0;
    while i < e.children.len()
        invariant
            i <= e.children@.len(),
            tempos@.len() + marks@.len() == i,
            forall|j: int|
                0 <= j < tempos@.len() ==> tempo_elem(#[trigger] e.children@[j], tempos@[j]),
            forall|j: int|
                0 <= j < marks@.len() ==> mark_elem(
                    #[trigger] e.children@[tempos@.len() + j],
                    marks@[j],
                ),
            marks@.len() > 0 ==> exists|j: int|
                0 <= j < i && (#[trigger] e.children@[j]).name@ == "POSITION_MARK"@,
        decreases e.children@.len() - i,
    {
        let c = &e.children[i];
        if str_eq(&c.name, "TEMPO") {
            if marks.len() > 0 {
                proof {
                    lemma_literal_facts();
                    if exists|t: Track| track_elem(*e, t) {
                        let t = choose|t: Track| track_elem(*e, t);
                        let l = t.tempos@.len() as int;
                        let j = choose|j: int|
                            0 <= j < i && (#[trigger] e.children@[j]).name@
                                == "POSITION_MARK"@;
                        if j < l {
                            assert(tempo_elem(e.children@[j], t.tempos@[j]));
                        } else {
                            assert(i < e.children@.len());
                            assert(mark_elem(e.children@[l + (i - l)], t.position_marks@[i - l]));
                        }
                        assert(false);
                    }
                }
                return Err(FormatError::Malformed);
            }
            match tempo_of_elem(c) {
                Ok(t) => {
                    tempos.push(t);
                },
                Err(err) => {
                    proof {
                        lemma_literal_facts();
                        if exists|t: Track| track_elem(*e, t) {
                            let t = choose|t: Track| track_elem(*e, t);
                            let l = t.tempos@.len() as int;
                            if i >= l {
                                assert(mark_elem(
                                    e.children@[l + (i - l)],
                                    t.position_marks@[i - l],
                                ));
                            } else {
                                assert(tempo_elem(e.children@[i as int], t.tempos@[i as int]));
                            }
                            assert(false);
                        }
                    }
                    return Err(err);
                },
            }
        } else {
            match mark_of_elem(c) {
                Ok(m) => {
                    marks.push(m);
                },
                Err(err) => {
                    proof {
                        lemma_literal_facts();
                        if exists|t: Track| track_elem(*e, t) {
                            let t = choose|t: Track| track_elem(*e, t);
                            let l = t.tempos@.len() as int;
                            if i < l {
                                assert(tempo_elem(e.children@[i as int], t.tempos@[i as int]));
                            } else {
                                assert(mark_elem(
                                    e.children@[l + (i - l)],
                                    t.position_marks@[i - l],
                                ));
                            }
                            assert(false);
                        }
                    }
                    return Err(err);
                },
            }
        }
        i += 1;
    }
    Ok(
        Track {
            track_id: e.attrs[0].value.clone(),
            name: e.attrs[1].value.clone(),
            artist: e.attrs[2].value.clone(),
            composer: e.attrs[3].value.clone(),
            album: e.attrs[4].value.clone(),
            grouping: e.attrs[5].value.clone(),
            genre: e.attrs[6].value.clone(),
            kind: e.attrs[7].value.clone(),
            size: e.attrs[8].value.clone(),
            total_time: e.attrs[9].value.clone(),
            disc_number: e.attrs[10].value.clone(),
            track_number: e.attrs[11].value.clone(),
            year: e.attrs[12].value.clone(),
            average_bpm: e.attrs[13].value.clone(),
            date_added: e.attrs[14].value.clone(),
            bit_rate: e.attrs[15].value.clone(),
            sample_rate: e.attrs[16].value.clone(),
            comments: e.attrs[17].value.clone(),
            play_count: e.attrs[18].value.clone(),
            rating: e.attrs[19].value.clone(),
            location: e.attrs[20].value.clone(),
            remixer: e.attrs[21].value.clone(),
            tonality: e.attrs[22].value.clone(),
            label: e.attrs[23].value.clone(),
            mix: e.attrs[24].value.clone(),
            tempos,
            position_marks: marks,
        },
    )
}

fn noderef_of_elem(e: &XmlElem) -> (r: Result<NodeTrackRef, FormatError>)
    ensures
        r is Ok ==> noderef_elem(*e, r.unwrap()),
        (exists|k: NodeTrackRef| noderef_elem(*e, k)) ==> r is Ok,
{
    if !str_eq(&e.name, "TRACK") || e.attrs.len() != 1 || e.children.len() != 0 {
        return Err(FormatError::Malformed);
    }
    if !str_eq(&e.attrs[0].name, "Key") {
        return Err(FormatError::Malformed);
    }
    match parse_u32_value(&e.attrs[0].value) {
        Some(k) => Ok(NodeTrackRef { key: k }),
        None => {
            proof {
                if exists|k: NodeTrackRef| noderef_elem(*e, k) {
                    let k = choose|k: NodeTrackRef| noderef_elem(*e, k);
                    assert(e.attrs@[0].value@ == dec_str(k.key as nat));
                    assert(crate::num::is_dec_u32(e.attrs@[0].value@));
                    assert(false);
                }
            }
            Err(FormatError::Malformed)
        },
    }
}

/// Element-wise `node_wf` gives `nodes_wf`.
proof fn lemma_nodes_wf_intro(ns: Seq<PlaylistNode>)
    requires
        forall|j: int| 0 <= j < ns.len() ==> node_wf(#[trigger] ns[j]),
    ensures
        nodes_wf(ns),
    decreases ns,
{
    if ns.len() > 0 {
        lemma_nodes_wf_intro(ns.drop_last());
    }
}

proof fn lemma_nodes_elems_index(es: Seq<XmlElem>, ns: Seq<PlaylistNode>)
    requires
        nodes_elems(es, ns),
    ensures
        forall|j: int| 0 <= j < ns.len() ==> node_elem(#[trigger] es[j], ns[j]),
    decreases es,
{
    if es.len() > 0 {
        lemma_nodes_elems_index(es.drop_last(), ns.drop_last());
        assert forall|j: int| 0 <= j < ns.len() implies node_elem(#[trigger] es[j], ns[j]) by {
            if j < ns.len() - 1 {
                assert(es.drop_last()[j] == es[j]);
                assert(ns.drop_last()[j] == ns[j]);
            }
        }
    }
}

proof fn lemma_nodes_wf_index(ns: Seq<PlaylistNode>)
    requires
        nodes_wf(ns),
    ensures
        forall|j: int| 0 <= j < ns.len() ==> node_wf(#[trigger] ns[j]),
    decreases ns,
{
    if ns.len() > 0 {
        lemma_nodes_wf_index(ns.drop_last());
        assert forall|j: int| 0 <= j < ns.len() implies node_wf(#[trigger] ns[j]) by {
            if j < ns.len() - 1 {
                assert(ns.drop_last()[j] == ns[j]);
            }
        }
    }
}

fn node_of_elem(e: &XmlElem) -> (r: Result<PlaylistNode, FormatError>)
    ensures
        r is Ok ==> node_elem(*e, r.unwrap()) && node_wf(r.unwrap()),
        (exists|n: PlaylistNode| node_elem(*e, n) && node_wf(n)) ==> r is Ok,
    decreases *e,
{
    if !str_eq(&e.name, "NODE") || e.attrs.len() < 2 {
        return Err(FormatError::Malformed);
    }
    if !str_eq(&e.attrs[0].name, "Name") || !str_eq(&e.attrs[1].name, "Type") {
        return Err(FormatError::Malformed);
    }
    let is_folder = str_eq(&e.attrs[1].value, "0");
    if !is_folder && !str_eq(&e.attrs[1].value, "1") {
        return Err(FormatError::Malformed);
    }
    let n_attrs = e.attrs.len();
    let has_count = n_attrs > 2 && str_eq(&e.attrs[2].name, "Count");
    let count: Option<u32> = if has_count {
        match parse_u32_value(&e.attrs[2].value) {
            Some(v) => Some(v),
            None => {
                proof {
                    lemma_literal_facts();
                    if exists|n: PlaylistNode| node_elem(*e, n) && node_wf(n) {
                        let n = choose|n: PlaylistNode| node_elem(*e, n) && node_wf(n);
                        if n.count is None {
                            if n.key_type is Some {
                                assert(e.attrs@[2].name@ == "KeyType"@);
                            } else if n.entries is Some {
                                assert(e.attrs@[2].name@ == "Entries"@);
                            } else {
                                assert(e.attrs@.len() == 2);
                            }
                        }
                        assert(e.attrs@[2].value@ == dec_str(n.count.unwrap() as nat));
                        assert(crate::num::is_dec_u32(e.attrs@[2].value@));
                        assert(false);
                    }
                }
                return Err(FormatError::Malformed);
            },
        }
    } else {
        None
    };
    proof {
        lemma_literal_facts();
        assert forall|n: PlaylistNode| node_elem(*e, n) implies n.count == count by {
            if n.count is Some {
                assert(e.attrs@[2].name@ == "Count"@);
                assert(e.attrs@.len() >= 3);
                crate::num::lemma_dec_str_injective(
                    n.count.unwrap() as nat,
                    count.unwrap() as nat,
                );
            } else {
                if has_count {
                    if n.key_type is Some {
                        assert(e.attrs@[2].name@ == "KeyType"@);
                    } else if n.entries is Some {
                        assert(e.attrs@[2].name@ == "Entries"@);
                    } else {
                        assert(e.attrs@.len() == 2);
                    }
                    assert(false);
                }
            }
        }
    }
    let kpos: usize = if has_count {
        3
    } else {
        2
    };
    let has_kt = n_attrs > kpos && str_eq(&e.attrs[kpos].name, "KeyType");
    let key_type: Option<u32> = if has_kt {
        match parse_u32_value(&e.attrs[kpos].value) {
            Some(v) => Some(v),
            None => {
                proof {
                    lemma_literal_facts();
                    if exists|n: PlaylistNode| node_elem(*e, n) && node_wf(n) {
                        let n = choose|n: PlaylistNode| node_elem(*e, n) && node_wf(n);
                        assert(kpos == 2 + opt_count(n.count));
                        if n.key_type is None {
                            if n.entries is Some {
                                assert(e.attrs@[kpos as int].name@ == "Entries"@);
                            } else {
                                assert(e.attrs@.len() == kpos);
                            }
                        }
                        assert(e.attrs@[kpos as int].value@ == dec_str(
                            n.key_type.unwrap() as nat,
                        ));
                        assert(crate::num::is_dec_u32(e.attrs@[kpos as int].value@));
                        assert(false);
                    }
                }
                return Err(FormatError::Malformed);
            },
        }
    } else {
        None
    };
    proof {
        lemma_literal_facts();
        assert forall|n: PlaylistNode| node_elem(*e, n) implies n.key_type == key_type by {
            assert(kpos == 2 + opt_count(n.count));
            if n.key_type is Some {
                assert(e.attrs@[kpos as int].name@ == "KeyType"@);
                assert(e.attrs@.len() > kpos);
                crate::num::lemma_dec_str_injective(
                    n.key_type.unwrap() as nat,
                    key_type.unwrap() as nat,
                );
            } else {
                if has_kt {
                    if n.entries is Some {
                        assert(e.attrs@[kpos as int].name@ == "Entries"@);
                    } else {
                        assert(e.attrs@.len() == kpos);
                    }
                    assert(false);
                }
            }
        }
    }
    let epos: usize = if has_kt {
        kpos + 1
    } else {
        kpos
    };
    let has_en = n_attrs > epos && str_eq(&e.attrs[epos].name, "Entries");
    let entries: Option<u32> = if has_en {
        match parse_u32_value(&e.attrs[epos].value) {
            Some(v) => Some(v),
            None => {
                proof {
                    lemma_literal_facts();
                    if exists|n: PlaylistNode| node_elem(*e, n) && node_wf(n) {
                        let n = choose|n: PlaylistNode| node_elem(*e, n) && node_wf(n);
                        assert(epos == 2 + opt_count(n.count) + opt_count(n.key_type));
                        if n.entries is None {
                            assert(e.attrs@.len() == epos);
                        }
                        assert(e.attrs@[epos as int].value@ == dec_str(
                            n.entries.unwrap() as nat,
                        ));
                        assert(crate::num::is_dec_u32(e.attrs@[epos as int].value@));
                        assert(false);
                    }
                }
                return Err(FormatError::Malformed);
            },
        }
    } else {
        None
    };
    proof {
        lemma_literal_facts();
        assert forall|n: PlaylistNode| node_elem(*e, n) implies n.entries == entries by {
            assert(epos == 2 + opt_count(n.count) + opt_count(n.key_type));
            if n.entries is Some {
                assert(e.attrs@[epos as int].name@ == "Entries"@);
                assert(e.attrs@.len() > epos);
                crate::num::lemma_dec_str_injective(
                    n.entries.unwrap() as nat,
                    entries.unwrap() as nat,
                );
            } else {
                if has_en {
                    assert(e.attrs@.len() == epos);
                    assert(false);
                }
            }
        }
    }
    let endpos: usize = if has_en {
        epos + 1
    } else {
        epos
    };
    if endpos != n_attrs {
        proof {
            if exists|n: PlaylistNode| node_elem(*e, n) && node_wf(n) {
                let n = choose|n: PlaylistNode| node_elem(*e, n) && node_wf(n);
                assert(e.attrs@.len() == 2 + opt_count(n.count) + opt_count(n.key_type)
                    + opt_count(n.entries));
                assert(false);
            }
        }
        return Err(FormatError::Malformed);
    }
    let name = e.attrs[0].value.clone();
    if is_folder {
        if e.children.len() == 0 {
            return Ok(
                PlaylistNode { name, count, key_type, entries, content: NodeContent::Folder(None) },
            );
        }
        let mut subnodes: Vec<PlaylistNode> = Vec::new();
        let mut i: usize = 0;
        while i < e.children.len()
            invariant
                i <= e.children@.len(),
                subnodes@.len() == i,
                e.attrs@.len() >= 2,
                is_folder,
                is_folder == (e.attrs@[1].value@ == "0"@),
                forall|j: int|
                    0 <= j < i ==> node_elem(e.children@[j], #[trigger] subnodes@[j]) && node_wf(
                        subnodes@[j],
                    ),
            decreases e.children@.len() - i,
        {
            proof {
                assert(decreases_to!(*e => e.children));
                assert(decreases_to!(e.children => e.children@));
                assert(decreases_to!(e.children@ => e.children@[i as int]));
            }
            match node_of_elem(&e.children[i]) {
                Ok(n) => {
                    subnodes.push(n);
                },
                Err(err) => {
                    proof {
                        lemma_literal_facts();
                        if exists|n: PlaylistNode| node_elem(*e, n) && node_wf(n) {
                            let n = choose|n: PlaylistNode| node_elem(*e, n) && node_wf(n);
                            match n.content {
                                NodeContent::Folder(children) => match children {
                                    Some(v) => {
                                        lemma_nodes_elems_index(e.children@, v@);
                                        lemma_nodes_wf_index(v@);
                                        assert(node_elem(e.children@[i as int], v@[i as int])
                                            && node_wf(v@[i as int]));
                                    },
                                    None => {
                                        assert(e.children@.len() == 0);
                                    },
                                },
                                NodeContent::Playlist(_) => {
                                    assert(e.attrs@[1].value@ == "1"@);
                                },
                            }
                            assert(false);
                        }
                    }
                    return Err(err);
                },
            }
            i += 1;
        }
        proof {
            lemma_nodes_elems_intro(e.children@, subnodes@);
            lemma_nodes_wf_intro(subnodes@);
        }
        Ok(
            PlaylistNode {
                name,
                count,
                key_type,
                entries,
                content: NodeContent::Folder(Some(subnodes)),
            },
        )
    } else {
        if e.children.len() == 0 {
            return Ok(
                PlaylistNode {
                    name,
                    count,
                    key_type,
                    entries,
                    content: NodeContent::Playlist(None),
                },
            );
        }
        let mut refs: Vec<NodeTrackRef> = Vec::new();
        let mut i: usize = 0;
        while i < e.children.len()
            invariant
                i <= e.children@.len(),
                refs@.len() == i,
                is_folder == (e.attrs@[1].value@ == "0"@),
                !is_folder,
                e.attrs@.len() >= 2,
                e.attrs@[1].value@ == "1"@,
                forall|j: int|
                    0 <= j < i ==> noderef_elem(e.children@[j], #[trigger] refs@[j]),
            decreases e.children@.len() - i,
        {
            match noderef_of_elem(&e.children[i]) {
                Ok(n) => {
                    refs.push(n);
                },
                Err(err) => {
                    proof {
                        lemma_literal_facts();
                        if exists|n: PlaylistNode| node_elem(*e, n) && node_wf(n) {
                            let n = choose|n: PlaylistNode| node_elem(*e, n) && node_wf(n);
                            match n.content {
                                NodeContent::Playlist(track_refs) => match track_refs {
                                    Some(v) => {
                                        assert(noderef_elem(e.children@[i as int], v@[i as int]));
                                    },
                                    None => {
                                        assert(e.children@.len() == 0);
                                    },
                                },
                                NodeContent::Folder(_) => {
                                    assert(e.attrs@[1].value@ == "0"@);
                                },
                            }
                            assert(false);
                        }
                    }
                    return Err(err);
                },
            }
            i += 1;
        }
        Ok(
            PlaylistNode {
                name,
                count,
                key_type,
                entries,
                content: NodeContent::Playlist(Some(refs)),
            },
        )
    }
}

/// Reads a document out of its element tree; `Err` when the tree does not
/// follow the schema (wrong names, counts, attribute order, a folder and
/// track references mixed, or a malformed numeric attribute). The result is
/// canonical (`doc_wf`) and stands in the exact `doc_elem` correspondence
/// with the tree.
pub fn tree_to_doc(e: &XmlElem) -> (r: Result<CollectionDocument, FormatError>)
    ensures
        r is Ok ==> doc_elem(*e, r.unwrap()) && doc_wf(r.unwrap()),
        (exists|d: CollectionDocument| doc_elem(*e, d) && doc_wf(d)) ==> r is Ok,
{
    if !str_eq(&e.name, "DJ_PLAYLISTS") || e.attrs.len() != 1 || e.children.len() != 3 {
        return Err(FormatError::Malformed);
    }
    if !str_eq(&e.attrs[0].name, "Version") {
        return Err(FormatError::Malformed);
    }
    let product = match product_of_elem(&e.children[0]) {
        Ok(p) => p,
        Err(err) => {
            proof {
                if exists|d: CollectionDocument| doc_elem(*e, d) && doc_wf(d) {
                    let d = choose|d: CollectionDocument| doc_elem(*e, d) && doc_wf(d);
                    assert(product_elem(e.children@[0], d.product));
                    assert(false);
                }
            }
            return Err(err);
        },
    };
    let coll = &e.children[1];
    if !str_eq(&coll.name, "COLLECTION") || coll.attrs.len() != 1 {
        return Err(FormatError::Malformed);
    }
    if !str_eq(&coll.attrs[0].name, "Entries") {
        return Err(FormatError::Malformed);
    }
    let collection_entries = match parse_u32_value(&coll.attrs[0].value) {
        Some(v) => v,
        None => {
            proof {
                if exists|d: CollectionDocument| doc_elem(*e, d) && doc_wf(d) {
                    let d = choose|d: CollectionDocument| doc_elem(*e, d) && doc_wf(d);
                    assert(coll.attrs@[0].value@ == dec_str(d.collection_entries as nat));
                    assert(crate::num::is_dec_u32(coll.attrs@[0].value@));
                    assert(false);
                }
            }
            return Err(FormatError::Malformed);
        },
    };
    let mut tracks: Vec<Track> = Vec::new();
    let mut i: usize = 0;
    while i < coll.children.len()
        invariant
            i <= coll.children@.len(),
            *coll == e.children@[1],
            tracks@.len() == i,
            forall|j: int|
                0 <= j < i ==> track_elem(coll.children@[j], #[trigger] tracks@[j]),
        decreases coll.children@.len() - i,
    {
        match track_of_elem(&coll.children[i]) {
            Ok(t) => {
                tracks.push(t);
            },
            Err(err) => {
                proof {
                    if exists|d: CollectionDocument| doc_elem(*e, d) && doc_wf(d) {
                        let d = choose|d: CollectionDocument| doc_elem(*e, d) && doc_wf(d);
                        assert(track_elem(coll.children@[i as int], d.tracks@[i as int]));
                        assert(false);
                    }
                }
                return Err(err);
            },
        }
        i += 1;
    }
    let pls = &e.children[2];
    if !str_eq(&pls.name, "PLAYLISTS") || pls.attrs.len() != 0 || pls.children.len() != 1 {
        return Err(FormatError::Malformed);
    }
    let playlist_root = match node_of_elem(&pls.children[0]) {
        Ok(n) => n,
        Err(err) => {
            proof {
                if exists|d: CollectionDocument| doc_elem(*e, d) && doc_wf(d) {
                    let d = choose|d: CollectionDocument| doc_elem(*e, d) && doc_wf(d);
                    assert(node_elem(pls.children@[0], d.playlist_root) && node_wf(
                        d.playlist_root,
                    ));
                    assert(false);
                }
            }
            return Err(err);
        },
    };
    let version = e.attrs[0].value.clone();
    Ok(CollectionDocument { version, product, collection_entries, tracks, playlist_root })
}



/// The codec round trip, stated over the code itself: a canonical document,
/// taken to its element tree and read back, decodes successfully, and what
/// comes back agrees with the original field for field.
pub fn round_trip(d: &CollectionDocument) -> (r: Result<CollectionDocument, FormatError>)
    requires
        doc_wf(*d),
    ensures
        r is Ok,
        r is Ok ==> r.unwrap().deep_view() == d.deep_view(),
{
    let t = doc_to_tree(d);
    let r = tree_to_doc(&t);
    proof {
        assert(doc_elem(t, *d) && doc_wf(*d));
        if r is Ok {
            lemma_doc_elem_functional(t, *d, r.unwrap());
        }
    }
    r
}

proof fn lemma_node_opt_attrs_functional(e: XmlElem, a: PlaylistNode, b: PlaylistNode)
    requires
        node_opt_attrs(e, a),
        node_opt_attrs(e, b),
    ensures
        a.count == b.count,
        a.key_type == b.key_type,
        a.entries == b.entries,
{
    reveal_strlit("Count");
    reveal_strlit("KeyType");
    reveal_strlit("Entries");
    assert("Count"@ != "KeyType"@) by {
        assert("Count"@.len() == 5);
        assert("KeyType"@.len() == 7);
    }
    assert("Count"@ != "Entries"@) by {
        assert("Count"@.len() == 5);
        assert("Entries"@.len() == 7);
    }
    assert("KeyType"@ != "Entries"@) by {
        assert("KeyType"@[0] == 'K');
        assert("Entries"@[0] == 'E');
    }
    if a.count is Some && b.count is None {
        assert(e.attrs@[2].name@ == "Count"@);
        if b.key_type is Some {
            assert(e.attrs@[2].name@ == "KeyType"@);
            assert(false);
        } else if b.entries is Some {
            assert(e.attrs@[2].name@ == "Entries"@);
            assert(false);
        } else {
            assert(e.attrs@.len() == 2);
            assert(false);
        }
    }
    if b.count is Some && a.count is None {
        assert(e.attrs@[2].name@ == "Count"@);
        if a.key_type is Some {
            assert(false);
        } else if a.entries is Some {
            assert(false);
        } else {
            assert(false);
        }
    }
    let c = opt_count(a.count);
    if a.key_type is Some && b.key_type is None {
        assert(e.attrs@[2 + c].name@ == "KeyType"@);
        if b.entries is Some {
            assert(e.attrs@[2 + c].name@ == "Entries"@);
            assert(false);
        } else {
            assert(e.attrs@.len() == 2 + c);
            assert(false);
        }
    }
    if b.key_type is Some && a.key_type is None {
        assert(e.attrs@[2 + c].name@ == "KeyType"@);
        if a.entries is Some {
            assert(false);
        } else {
            assert(false);
        }
    }
    if a.count is Some {
        crate::num::lemma_dec_str_injective(a.count.unwrap() as nat, b.count.unwrap() as nat);
    }
    if a.key_type is Some {
        crate::num::lemma_dec_str_injective(
            a.key_type.unwrap() as nat,
            b.key_type.unwrap() as nat,
        );
    }
    if a.entries is Some {
        crate::num::lemma_dec_str_injective(a.entries.unwrap() as nat, b.entries.unwrap() as nat);
    }
}

proof fn lemma_track_elem_functional(e: XmlElem, a: Track, b: Track)
    requires
        track_elem(e, a),
        track_elem(e, b),
    ensures
        a.deep_view() == b.deep_view(),
{
    reveal_strlit("TEMPO");
    reveal_strlit("POSITION_MARK");
    assert("TEMPO"@ != "POSITION_MARK"@) by {
        assert("TEMPO"@.len() == 5);
        assert("POSITION_MARK"@.len() == 13);
    }
    let la = a.tempos@.len() as int;
    let lb = b.tempos@.len() as int;
    if la < lb {
        assert(a.position_marks@.len() > 0);
        assert(mark_elem(e.children@[la + 0], a.position_marks@[0]));
        assert(tempo_elem(e.children@[la], b.tempos@[la]));
        assert(false);
    }
    if lb < la {
        assert(b.position_marks@.len() > 0);
        assert(mark_elem(e.children@[lb + 0], b.position_marks@[0]));
        assert(tempo_elem(e.children@[lb], a.tempos@[lb]));
        assert(false);
    }
    assert(a.tempos.deep_view() =~= b.tempos.deep_view()) by {
        assert forall|i: int|
            0 <= i < la implies a.tempos.deep_view()[i] == b.tempos.deep_view()[i] by {
            assert(tempo_elem(e.children@[i], a.tempos@[i]));
            assert(tempo_elem(e.children@[i], b.tempos@[i]));
        }
    }
    assert(a.position_marks.deep_view() =~= b.position_marks.deep_view()) by {
        assert forall|i: int|
            0 <= i < a.position_marks@.len() implies a.position_marks.deep_view()[i]
            == b.position_marks.deep_view()[i] by {
            assert(mark_elem(e.children@[la + i], a.position_marks@[i]));
            assert(mark_elem(e.children@[la + i], b.position_marks@[i]));
        }
    }
}

proof fn lemma_nodes_elems_functional(
    es: Seq<XmlElem>,
    xs: Seq<PlaylistNode>,
    ys: Seq<PlaylistNode>,
)
    requires
        nodes_elems(es, xs),
        nodes_elems(es, ys),
        nodes_wf(xs),
        nodes_wf(ys),
    ensures
        xs.len() == ys.len(),
        forall|i: int|
            0 <= i < xs.len() ==> crate::model::node_deep_view(#[trigger] xs[i])
                == crate::model::node_deep_view(ys[i]),
    decreases es,
{
    if es.len() > 0 {
        lemma_nodes_elems_functional(es.drop_last(), xs.drop_last(), ys.drop_last());
        assert(decreases_to!(es => es[es.len() - 1]));
        lemma_node_elem_functional(es[es.len() - 1], xs.last(), ys.last());
        assert forall|i: int|
            0 <= i < xs.len() implies crate::model::node_deep_view(#[trigger] xs[i])
            == crate::model::node_deep_view(ys[i]) by {
            if i < xs.len() - 1 {
                assert(xs.drop_last()[i] == xs[i]);
                assert(ys.drop_last()[i] == ys[i]);
            }
        }
    }
}

/// The round-trip core for the playlist tree: the `node_elem`
/// correspondence is injective in the node — two canonical nodes matching
/// the same element are the same node, up to their ghost views.
proof fn lemma_node_elem_functional(e: XmlElem, a: PlaylistNode, b: PlaylistNode)
    requires
        node_elem(e, a),
        node_elem(e, b),
        node_wf(a),
        node_wf(b),
    ensures
        crate::model::node_deep_view(a) == crate::model::node_deep_view(b),
    decreases e,
{
    lemma_node_opt_attrs_functional(e, a, b);
    reveal_strlit("0");
    reveal_strlit("1");
    assert("0"@ != "1"@) by {
        assert("0"@[0] == '0');
        assert("1"@[0] == '1');
    }
    match (a.content, b.content) {
        (NodeContent::Folder(ca), NodeContent::Folder(cb)) => {
            match (ca, cb) {
                (Option::None, Option::None) => {},
                (Option::Some(va), Option::None) => {
                    assert(nodes_elems(e.children@, va@));
                    assert(va@.len() > 0);
                    assert(false);
                },
                (Option::None, Option::Some(vb)) => {
                    assert(nodes_elems(e.children@, vb@));
                    assert(vb@.len() > 0);
                    assert(false);
                },
                (Option::Some(va), Option::Some(vb)) => {
                    assert(decreases_to!(e => e.children));
                    assert(decreases_to!(e.children => e.children@));
                    lemma_nodes_elems_functional(e.children@, va@, vb@);
                    crate::model::lemma_nodes_deep_view(va@);
                    crate::model::lemma_nodes_deep_view(vb@);
                    assert(crate::model::nodes_deep_view(va@) =~= crate::model::nodes_deep_view(
                        vb@,
                    ));
                },
            }
        },
        (NodeContent::Playlist(ra), NodeContent::Playlist(rb)) => {
            match (ra, rb) {
                (Option::None, Option::None) => {},
                (Option::Some(va), Option::None) => {
                    assert(va@.len() > 0);
                    assert(false);
                },
                (Option::None, Option::Some(vb)) => {
                    assert(vb@.len() > 0);
                    assert(false);
                },
                (Option::Some(va), Option::Some(vb)) => {
                    assert forall|i: int| 0 <= i < va@.len() implies va@[i] == vb@[i] by {
                        assert(noderef_elem(e.children@[i], va@[i]));
                        assert(noderef_elem(e.children@[i], vb@[i]));
                        crate::num::lemma_dec_str_injective(va@[i].key as nat, vb@[i].key as nat);
                    }
                    assert(va@ =~= vb@);
                    assert(va.deep_view() =~= vb.deep_view());
                },
            }
        },
        (NodeContent::Folder(_), NodeContent::Playlist(_)) => {
            assert(content_code(a.content) == "0"@);
            assert(content_code(b.content) == "1"@);
            assert(false);
        },
        (NodeContent::Playlist(_), NodeContent::Folder(_)) => {
            assert(content_code(a.content) == "1"@);
            assert(content_code(b.content) == "0"@);
            assert(false);
        },
    }
}

/// Round trip: the `doc_elem` correspondence pins the document. Two
/// canonical documents matching one element tree agree field for field, so
/// a document read back from its own encoded tree is the original, up to
/// the ghost views the contracts speak of.
pub proof fn lemma_doc_elem_functional(e: XmlElem, d1: CollectionDocument, d2: CollectionDocument)
    requires
        doc_elem(e, d1),
        doc_elem(e, d2),
        doc_wf(d1),
        doc_wf(d2),
    ensures
        d1.deep_view() == d2.deep_view(),
{
    crate::num::lemma_dec_str_injective(
        d1.collection_entries as nat,
        d2.collection_entries as nat,
    );
    assert(d1.tracks.deep_view() =~= d2.tracks.deep_view()) by {
        assert(d1.tracks@.len() == d2.tracks@.len());
        assert forall|i: int|
            0 <= i < d1.tracks@.len() implies d1.tracks.deep_view()[i]
            == d2.tracks.deep_view()[i] by {
            lemma_track_elem_functional(e.children@[1].children@[i], d1.tracks@[i], d2.tracks@[i]);
        }
    }
    lemma_node_elem_functional(e.children@[2].children@[0], d1.playlist_root, d2.playlist_root);
}

} // verus!
