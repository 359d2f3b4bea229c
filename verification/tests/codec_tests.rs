use rb_xml::model::CollectionDocument;
use rb_xml::model::NodeContent;
use rb_xml::model::NodeTrackRef;
use rb_xml::model::PlaylistNode;
use rb_xml::model::PositionMark;
use rb_xml::model::Product;
use rb_xml::model::Tempo;
use rb_xml::model::Track;
use rb_xml::parser::Parser;
use rb_xml::RekordboxXml;

fn track_at(id: &str, location: &str) -> Track {
    Track {
        track_id: id.to_string(),
        name: "Song".to_string(),
        artist: String::new(),
        composer: String::new(),
        album: String::new(),
        grouping: String::new(),
        genre: String::new(),
        kind: String::new(),
        size: String::new(),
        total_time: String::new(),
        disc_number: String::new(),
        track_number: String::new(),
        year: String::new(),
        average_bpm: String::new(),
        date_added: String::new(),
        bit_rate: String::new(),
        sample_rate: String::new(),
        comments: String::new(),
        play_count: String::new(),
        rating: String::new(),
        location: location.to_string(),
        remixer: String::new(),
        tonality: String::new(),
        label: String::new(),
        mix: String::new(),
        tempos: vec![],
        position_marks: vec![],
    }
}

fn sample_doc() -> CollectionDocument {
    let mut t1 = track_at("1", "file://localhost/music/a.mp3");
    t1.average_bpm = "128.00".to_string();
    t1.tempos = vec![Tempo {
        inizio: "0.025".to_string(),
        bpm: "128.00".to_string(),
        metro: "4/4".to_string(),
        battito: "1".to_string(),
    }];
    t1.position_marks = vec![PositionMark {
        name: String::new(),
        mark_type: "0".to_string(),
        start: "0.025".to_string(),
        num: "-1".to_string(),
        red: "40".to_string(),
        green: "226".to_string(),
        blue: "20".to_string(),
    }];
    let t2 = track_at("2", "file://localhost/music/b.mp3");
    CollectionDocument {
        version: "1.0.0".to_string(),
        product: Product {
            name: "rekordbox".to_string(),
            version: "6.0.0".to_string(),
            company: "Pioneer DJ".to_string(),
        },
        collection_entries: 2,
        tracks: vec![t1, t2],
        playlist_root: PlaylistNode {
            name: "ROOT".to_string(),
            count: Some(1),
            key_type: None,
            entries: None,
            content: NodeContent::Folder(Some(vec![PlaylistNode {
                name: "My List".to_string(),
                count: None,
                key_type: Some(0),
                entries: Some(2),
                content: NodeContent::Playlist(Some(vec![
                    NodeTrackRef { key: 1 },
                    NodeTrackRef { key: 2 },
                ])),
            }])),
        },
    }
}

#[test]
fn round_trip_document() {
    let text = RekordboxXml::from_document(sample_doc()).to_xml();
    let decoded = RekordboxXml::new(&text).unwrap();
    assert_eq!(decoded.doc, sample_doc());
}

#[test]
fn encode_is_stable_after_round_trip() {
    let text = RekordboxXml::from_document(sample_doc()).to_xml();
    let decoded = RekordboxXml::new(&text).unwrap();
    assert_eq!(decoded.to_xml(), text);
}

#[test]
fn header_line_is_emitted() {
    let text = RekordboxXml::from_document(sample_doc()).to_xml();
    assert!(text.starts_with("<?xml version=\"1.0\" encoding=\"UTF-8\"?>\n\n"));
}

#[test]
fn parser_to_xml_has_no_header() {
    let text = RekordboxXml::from_document(sample_doc()).to_xml();
    let p = Parser::new(&text).unwrap();
    assert_eq!(p.doc, sample_doc());
    let bare = p.to_xml();
    assert!(bare.starts_with("<DJ_PLAYLISTS"));
}

#[test]
fn attribute_escapes_round_trip() {
    let mut d = sample_doc();
    d.tracks[0].artist = "A & B <\"quoted\"> 'x'".to_string();
    d.tracks[0].comments = "5 > 3 && 2 < 4".to_string();
    let text = RekordboxXml::from_document(d).to_xml();
    let decoded = RekordboxXml::new(&text).unwrap();
    assert_eq!(decoded.doc.tracks[0].artist, "A & B <\"quoted\"> 'x'");
    assert_eq!(decoded.doc.tracks[0].comments, "5 > 3 && 2 < 4");
}

#[test]
fn absent_collections_stay_absent() {
    let mut d = sample_doc();
    d.playlist_root = PlaylistNode {
        name: "ROOT".to_string(),
        count: None,
        key_type: None,
        entries: None,
        content: NodeContent::Folder(Some(vec![
            PlaylistNode {
                name: "empty folder".to_string(),
                count: None,
                key_type: None,
                entries: None,
                content: NodeContent::Folder(None),
            },
            PlaylistNode {
                name: "empty list".to_string(),
                count: Some(0),
                key_type: None,
                entries: None,
                content: NodeContent::Playlist(None),
            },
        ])),
    };
    let text = RekordboxXml::from_document(d).to_xml();
    let decoded = RekordboxXml::new(&text).unwrap().doc;
    match &decoded.playlist_root.content {
        NodeContent::Folder(Some(children)) => {
            assert!(matches!(children[0].content, NodeContent::Folder(None)));
            assert!(matches!(children[1].content, NodeContent::Playlist(None)));
        },
        other => panic!("unexpected root content: {:?}", other),
    }
}

#[test]
fn decode_rejects_garbage() {
    assert!(RekordboxXml::new("this is not markup").is_err());
}

#[test]
fn decode_rejects_wrong_root() {
    let text = "<?xml version=\"1.0\" encoding=\"UTF-8\"?>\n<FOO/>";
    assert!(RekordboxXml::new(text).is_err());
}

#[test]
fn decode_rejects_unclosed_element() {
    let text = "<DJ_PLAYLISTS Version=\"1\"><PRODUCT Name=\"a\" Version=\"b\" Company=\"c\"/>";
    assert!(RekordboxXml::new(text).is_err());
}

#[test]
fn decode_rejects_noncanonical_count() {
    let text = "<?xml version=\"1.0\" encoding=\"UTF-8\"?>\n<DJ_PLAYLISTS Version=\"1.0.0\"><PRODUCT Name=\"rb\" Version=\"6\" Company=\"c\"/><COLLECTION Entries=\"007\"/><PLAYLISTS><NODE Name=\"ROOT\" Type=\"0\"/></PLAYLISTS></DJ_PLAYLISTS>";
    assert!(RekordboxXml::new(text).is_err());
}

#[test]
fn decode_accepts_minimal_document() {
    let text = "<?xml version=\"1.0\" encoding=\"UTF-8\"?>\n<DJ_PLAYLISTS Version=\"1.0.0\"><PRODUCT Name=\"rb\" Version=\"6\" Company=\"c\"/><COLLECTION Entries=\"17\"/><PLAYLISTS><NODE Name=\"ROOT\" Type=\"0\"/></PLAYLISTS></DJ_PLAYLISTS>";
    let doc = RekordboxXml::new(text).unwrap().doc;
    // the declared count is preserved verbatim, never recomputed
    assert_eq!(doc.collection_entries, 17);
    assert_eq!(doc.tracks.len(), 0);
    assert_eq!(doc.version, "1.0.0");
    assert!(matches!(doc.playlist_root.content, NodeContent::Folder(None)));
}

#[test]
fn decode_rejects_folder_with_track_refs() {
    let text = "<DJ_PLAYLISTS Version=\"1\"><PRODUCT Name=\"rb\" Version=\"6\" Company=\"c\"/><COLLECTION Entries=\"0\"/><PLAYLISTS><NODE Name=\"ROOT\" Type=\"0\"><TRACK Key=\"1\"/></NODE></PLAYLISTS></DJ_PLAYLISTS>";
    assert!(RekordboxXml::new(text).is_err());
}

#[test]
fn decode_tolerates_whitespace_between_tags() {
    let text = RekordboxXml::from_document(sample_doc()).to_xml();
    let spaced = text.replace("\n", "\n\n   ");
    let decoded = RekordboxXml::new(&spaced).unwrap();
    assert_eq!(decoded.doc, sample_doc());
}

#[test]
fn track_key_at_u32_max_round_trips() {
    let mut d = sample_doc();
    d.playlist_root = PlaylistNode {
        name: "ROOT".to_string(),
        count: None,
        key_type: None,
        entries: None,
        content: NodeContent::Playlist(Some(vec![NodeTrackRef { key: 4294967295 }])),
    };
    let text = RekordboxXml::from_document(d).to_xml();
    assert!(text.contains("Key=\"4294967295\""));
    let decoded = RekordboxXml::new(&text).unwrap().doc;
    match &decoded.playlist_root.content {
        NodeContent::Playlist(Some(refs)) => assert_eq!(refs[0].key, 4294967295),
        other => panic!("unexpected content: {:?}", other),
    }
}

#[test]
fn decode_rejects_out_of_range_key() {
    let text = "<DJ_PLAYLISTS Version=\"1\"><PRODUCT Name=\"rb\" Version=\"6\" Company=\"c\"/><COLLECTION Entries=\"0\"/><PLAYLISTS><NODE Name=\"ROOT\" Type=\"1\"><TRACK Key=\"4294967296\"/></NODE></PLAYLISTS></DJ_PLAYLISTS>";
    assert!(RekordboxXml::new(text).is_err());
}

#[test]
fn codec_round_trip_witness() {
    let d = sample_doc();
    let back = rb_xml::codec::round_trip(&d).unwrap();
    assert_eq!(back, sample_doc());
}
