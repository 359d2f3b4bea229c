use rb_xml::analyzer::check_file_exists;
use rb_xml::analyzer::paths_diff;
use rb_xml::locator::resolve_location;
use rb_xml::model::CollectionDocument;
use rb_xml::model::NodeContent;
use rb_xml::model::PlaylistNode;
use rb_xml::model::Product;
use rb_xml::model::Track;
use rb_xml::paths::file_name;
use rb_xml::paths::filter_supported_files;
use rb_xml::paths::is_supported_file;
use rb_xml::Analyzer;
use rb_xml::RekordboxXml;

fn simple_track(id: &str, location: &str) -> Track {
    Track {
        track_id: id.to_string(),
        name: String::new(),
        artist: String::new(),
        composer: String::new(),
        album: String::new(),
        grouping: String::new(),
        genre: String::new(),
        kind: String::new(),
        size: String::new(),
        total_time: String::new(),
        disc_number: String::new(),
        track_number: String::new(),
        year: String::new(),
        average_bpm: String::new(),
        date_added: String::new(),
        bit_rate: String::new(),
        sample_rate: String::new(),
        comments: String::new(),
        play_count: String::new(),
        rating: String::new(),
        location: location.to_string(),
        remixer: String::new(),
        tonality: String::new(),
        label: String::new(),
        mix: String::new(),
        tempos: vec![],
        position_marks: vec![],
    }
}

fn doc_with_tracks(tracks: Vec<Track>) -> CollectionDocument {
    CollectionDocument {
        version: "1.0.0".to_string(),
        product: Product {
            name: "rekordbox".to_string(),
            version: "6".to_string(),
            company: "P".to_string(),
        },
        collection_entries: tracks.len() as u32,
        tracks,
        playlist_root: PlaylistNode {
            name: "ROOT".to_string(),
            count: None,
            key_type: None,
            entries: None,
            content: NodeContent::Folder(None),
        },
    }
}

fn strs(v: &[&str]) -> Vec<String> {
    v.iter().map(|s| s.to_string()).collect()
}

#[test]
fn resolve_location_decodes_file_uris() {
    assert_eq!(
        resolve_location("file://localhost/music/a%20b.mp3"),
        Some("/music/a b.mp3".to_string())
    );
    assert_eq!(resolve_location("file:///music/c.mp3"), Some("/music/c.mp3".to_string()));
    assert_eq!(resolve_location("http://example.com/a.mp3"), None);
    assert_eq!(resolve_location("not a uri"), None);
}

#[test]
fn missing_lists_exactly_the_unresolvable_free_absent_paths() {
    let doc = doc_with_tracks(vec![
        simple_track("1", "file://localhost/music/a.mp3"),
        simple_track("2", "file://localhost/music/b.mp3"),
        simple_track("3", "not a uri"),
        simple_track("4", "http://elsewhere/c.mp3"),
    ]);
    let existing = strs(&["/music/a.mp3"]);
    let mut an = Analyzer::new(RekordboxXml::from_document(doc), vec![], existing);
    an.run();
    // resolved and absent: only b; unresolvable locations are skipped, not missing
    assert_eq!(an.report.missing, strs(&["/music/b.mp3"]));
}

#[test]
fn not_imported_is_listing_minus_resolved() {
    let doc = doc_with_tracks(vec![simple_track("1", "file://localhost/music/a.mp3")]);
    let listing = strs(&["/music/a.mp3", "/music/c.mp3", "/music/d.mp3"]);
    let mut an = Analyzer::new(RekordboxXml::from_document(doc), listing, strs(&["/music/a.mp3"]));
    an.run();
    assert_eq!(an.report.not_imported, strs(&["/music/c.mp3", "/music/d.mp3"]));
}

#[test]
fn duplicates_group_same_named_files_under_track_path() {
    let doc = doc_with_tracks(vec![simple_track("1", "file://localhost/music/a.mp3")]);
    let listing = strs(&["/music/a.mp3", "/other/a.mp3", "/music/unique.mp3"]);
    let existing = strs(&["/music/a.mp3"]);
    let mut an = Analyzer::new(RekordboxXml::from_document(doc), listing, existing);
    an.run();
    assert_eq!(an.report.duplicates.len(), 1);
    assert_eq!(an.report.duplicates[0].key, "/music/a.mp3");
    assert_eq!(an.report.duplicates[0].matches, strs(&["/other/a.mp3"]));
}

#[test]
fn unique_filename_contributes_no_duplicate_entry() {
    let doc = doc_with_tracks(vec![simple_track("1", "file://localhost/music/unique.mp3")]);
    let listing = strs(&["/music/unique.mp3", "/music/other.mp3"]);
    let existing = strs(&["/music/unique.mp3"]);
    let mut an = Analyzer::new(RekordboxXml::from_document(doc), listing, existing);
    an.run();
    assert!(an.report.duplicates.is_empty());
}

#[test]
fn relocation_keeps_all_ambiguous_candidates() {
    let doc = doc_with_tracks(vec![simple_track("1", "file://localhost/old/track.mp3")]);
    let listing = strs(&["/new/track.mp3", "/other/track.mp3"]);
    let mut an = Analyzer::new(RekordboxXml::from_document(doc), listing, vec![]);
    an.run();
    assert_eq!(an.report.missing, strs(&["/old/track.mp3"]));
    assert_eq!(an.report.relocated.len(), 1);
    assert_eq!(an.report.relocated[0].key, "track.mp3");
    assert_eq!(an.report.relocated[0].matches, strs(&["/new/track.mp3", "/other/track.mp3"]));
}

#[test]
fn relocation_single_candidate() {
    let doc = doc_with_tracks(vec![simple_track("1", "file://localhost/old/track.mp3")]);
    let listing = strs(&["/new/track.mp3", "/new/unrelated.mp3"]);
    let mut an = Analyzer::new(RekordboxXml::from_document(doc), listing, vec![]);
    an.run();
    assert_eq!(an.report.relocated.len(), 1);
    assert_eq!(an.report.relocated[0].matches, strs(&["/new/track.mp3"]));
}

#[test]
fn empty_directory_listing_degrades_quietly() {
    let doc = doc_with_tracks(vec![
        simple_track("1", "file://localhost/music/a.mp3"),
        simple_track("2", "file://localhost/music/b.mp3"),
    ]);
    let mut an = Analyzer::new(RekordboxXml::from_document(doc), vec![], strs(&["/music/a.mp3"]));
    an.run();
    assert!(an.report.not_imported.is_empty());
    assert!(an.report.duplicates.is_empty());
    assert!(an.report.relocated.is_empty());
    // the missing check draws on the document, not the directory
    assert_eq!(an.report.missing, strs(&["/music/b.mp3"]));
}

#[test]
fn unsupported_extension_never_reaches_the_report() {
    let raw = strs(&["/music/track.ogg", "/music/a.mp3", "/music/track.OGG"]);
    let listing = filter_supported_files(raw);
    assert_eq!(listing, strs(&["/music/a.mp3"]));
    let doc = doc_with_tracks(vec![simple_track("1", "file://localhost/old/track.ogg")]);
    let mut an = Analyzer::new(RekordboxXml::from_document(doc), listing, vec![]);
    an.run();
    assert!(an.report.not_imported.iter().all(|p| !p.ends_with(".ogg")));
    assert!(an.report.duplicates.iter().all(|g| g.matches.iter().all(|p| !p.ends_with(".ogg"))));
    assert!(an.report.relocated.iter().all(|g| g.matches.iter().all(|p| !p.ends_with(".ogg"))));
}

#[test]
fn check_file_exists_consults_the_given_paths() {
    let existing = strs(&["/music/a.mp3"]);
    assert!(check_file_exists("file://localhost/music/a.mp3", &existing));
    assert!(!check_file_exists("file://localhost/music/b.mp3", &existing));
    assert!(!check_file_exists("not a uri", &existing));
}

#[test]
fn paths_diff_keeps_order_of_first_argument() {
    let a = strs(&["/x/1.mp3", "/x/2.mp3", "/x/3.mp3"]);
    let b = strs(&["/x/2.mp3"]);
    assert_eq!(paths_diff(&a, &b), strs(&["/x/1.mp3", "/x/3.mp3"]));
}

#[test]
fn file_name_takes_final_component() {
    assert_eq!(file_name("/music/sub/track.mp3"), "track.mp3");
    assert_eq!(file_name("track.mp3"), "track.mp3");
    assert_eq!(file_name("/music/dir/"), "");
}

#[test]
fn extension_match_is_case_insensitive() {
    assert!(is_supported_file("/m/a.mp3"));
    assert!(is_supported_file("/m/a.MP3"));
    assert!(is_supported_file("/m/a.FlAc"));
    assert!(is_supported_file("/m/b.aac"));
    assert!(is_supported_file("/m/b.wav"));
    assert!(!is_supported_file("/m/a.ogg"));
    assert!(!is_supported_file("/m/amp3"));
    assert!(!is_supported_file("/m/.mp3"));
    assert!(!is_supported_file("/m/a."));
}

#[test]
fn duplicates_with_both_files_referenced() {
    let doc = doc_with_tracks(vec![
        simple_track("1", "file://localhost/music/a.mp3"),
        simple_track("2", "file://localhost/other/a.mp3"),
    ]);
    let listing = strs(&["/music/a.mp3", "/other/a.mp3"]);
    let existing = strs(&["/music/a.mp3", "/other/a.mp3"]);
    let mut an = Analyzer::new(RekordboxXml::from_document(doc), listing, existing);
    an.run();
    assert_eq!(an.report.duplicates.len(), 2);
    assert_eq!(an.report.duplicates[0].key, "/music/a.mp3");
    assert_eq!(an.report.duplicates[0].matches, strs(&["/other/a.mp3"]));
    assert_eq!(an.report.duplicates[1].key, "/other/a.mp3");
    assert_eq!(an.report.duplicates[1].matches, strs(&["/music/a.mp3"]));
}

#[test]
fn rerun_rebuilds_the_report_from_scratch() {
    let doc = doc_with_tracks(vec![simple_track("1", "file://localhost/music/b.mp3")]);
    let mut an = Analyzer::new(RekordboxXml::from_document(doc), vec![], vec![]);
    an.run();
    an.run();
    assert_eq!(an.report.missing, strs(&["/music/b.mp3"]));
}

#[test]
fn paths_diff_reports_each_entry_once() {
    let a = strs(&["/x/a.mp3", "/x/a.mp3", "/x/b.mp3", "/x/a.mp3"]);
    let b = strs(&["/x/b.mp3"]);
    assert_eq!(paths_diff(&a, &b), strs(&["/x/a.mp3"]));
}

#[test]
fn not_imported_holds_no_duplicates() {
    let doc = doc_with_tracks(vec![simple_track("1", "file://localhost/music/a.mp3")]);
    let listing = strs(&["/music/c.mp3", "/music/a.mp3", "/music/c.mp3"]);
    let mut an = Analyzer::new(RekordboxXml::from_document(doc), listing, strs(&["/music/a.mp3"]));
    an.run();
    assert_eq!(an.report.not_imported, strs(&["/music/c.mp3"]));
}
