use camgeo::artifact::{compress, decode_lines, decompress_text, encode_lines};
use camgeo::cascade::{make_address, Answer, Descriptor, Request, Resolution};
use camgeo::coord::Coordinate;
use camgeo::discovery::{discover, next_page_start, parse_count, watch_id, watch_ids};
use camgeo::gate::{exclude_known, merge_outcome, shrink_guard, RunError};
use camgeo::idset::{contains_id, union_ids};
use camgeo::lines::{lines_of, render_lines};
use camgeo::locset::LocationSet;
use camgeo::revalidate::{status_is_live, Check, Observation, Revalidation};
use camgeo::rotation::{KeyPool, LookupError, Reply, Settle};
use camgeo::words::{contains_all_words, is_live_camera};

fn s(x: &str) -> String {
    x.to_string()
}

fn coord(lat: f64, lng: f64) -> Coordinate {
    Coordinate::new(lat.to_bits(), lng.to_bits())
}

#[test]
fn content_filter_rejects_when_all_words_present() {
    let patterns = vec![s("Camera view")];
    assert!(!is_live_camera("Main St Camera view intersection", &patterns));
    assert!(is_live_camera("Main St Traffic", &patterns));
}

#[test]
fn content_filter_is_order_independent() {
    let patterns = vec![s("view   Camera")];
    assert!(!is_live_camera("Main St Camera view intersection", &patterns));
    assert!(contains_all_words("Camera view", "view\tCamera"));
    assert!(!contains_all_words("Camera", "Camera view"));
}

#[test]
fn content_filter_empty_list_accepts() {
    assert!(is_live_camera("anything", &vec![]));
    assert!(contains_all_words("abc", ""));
    assert!(contains_all_words("abc", "   "));
}

#[test]
fn address_joins_title_and_author() {
    let d = Descriptor { title: s("Shibuya Crossing"), author: s("Tokyo Live") };
    assert_eq!(make_address(&d), "Shibuya Crossing Tokyo Live");
}

#[test]
fn shrink_guard_fails_below_half() {
    assert_eq!(shrink_guard(100, 40), Err(RunError::ShrinkGuardViolation { prior: 100, last: 40 }));
    assert_eq!(shrink_guard(100, 60), Ok(()));
    assert_eq!(shrink_guard(100, 50), Ok(()));
    assert_eq!(shrink_guard(101, 50), Err(RunError::ShrinkGuardViolation { prior: 101, last: 50 }));
    assert_eq!(shrink_guard(0, 0), Ok(()));
}

#[test]
fn key_rotation_third_credential_answers() {
    let mut pool = KeyPool::new(3);
    assert_eq!(pool.current_key(), Ok(0));
    assert!(matches!(pool.settle(Reply::<u32>::QuotaExceeded), Settle::Retry(1)));
    assert_eq!(pool.current_key(), Ok(1));
    assert!(matches!(pool.settle(Reply::<u32>::QuotaExceeded), Settle::Retry(2)));
    assert_eq!(pool.current_key(), Ok(2));
    let rotated = pool.settle(Reply::Answered(42u32));
    let mut single = KeyPool::new(1);
    let direct = single.settle(Reply::Answered(42u32));
    match (rotated, direct) {
        (Settle::Done(Ok(a)), Settle::Done(Ok(b))) => assert_eq!(a, b),
        _ => panic!("both calls should succeed"),
    }
    assert_eq!(pool.current_key(), Ok(2));
}

#[test]
fn key_rotation_exhaustion_is_sticky() {
    let mut pool = KeyPool::new(2);
    assert!(matches!(pool.settle(Reply::<u32>::QuotaExceeded), Settle::Retry(1)));
    match pool.settle(Reply::<u32>::QuotaExceeded) {
        Settle::Done(Err(e)) => assert_eq!(e, LookupError::QuotaExhausted),
        _ => panic!("pool should be exhausted"),
    }
    assert_eq!(pool.current_key(), Err(LookupError::QuotaExhausted));
    assert_eq!(KeyPool::new(0).current_key(), Err(LookupError::QuotaExhausted));
}

#[test]
fn key_rotation_transport_error_is_surfaced() {
    let mut pool = KeyPool::new(3);
    match pool.settle(Reply::<u32>::Failed(s("connection reset"))) {
        Settle::Done(Err(e)) => assert_eq!(e, LookupError::Transport(s("connection reset"))),
        _ => panic!("transport error should end the call"),
    }
    assert_eq!(pool.current_key(), Ok(0));
}

#[test]
fn discover_unions_sources_without_duplicates() {
    let searches = vec![vec![s("a"), s("b")], vec![s("b"), s("c")]];
    let feed = vec![s("c"), s("d"), s("d")];
    let mut r = discover(&searches, &feed);
    r.sort();
    assert_eq!(r, vec![s("a"), s("b"), s("c"), s("d")]);
}

#[test]
fn union_keeps_each_identifier_once() {
    let mut r = union_ids(&vec![s("x"), s("x")], &vec![s("y"), s("x")]);
    r.sort();
    assert_eq!(r, vec![s("x"), s("y")]);
}

#[test]
fn exclusion_drops_blacklisted_and_located() {
    let mut located = LocationSet::new();
    located.insert(s("b"), coord(1.0, 2.0));
    let mut r = exclude_known(&vec![s("a"), s("b"), s("c"), s("a")], &vec![s("c")], &located);
    r.sort();
    assert_eq!(r, vec![s("a")]);
}

#[test]
fn watch_id_extracts_first_address() {
    let snippet = "Live at https://www.youtube.com/watch?v=abcdefghijk and www.youtube.com/watch?v=ZZZZZZZZZZZ";
    assert_eq!(watch_id(snippet), Some(s("abcdefghijk")));
    assert_eq!(watch_id("no address here"), None);
    assert_eq!(watch_id("www.youtube.com/watch?v=short"), None);
    assert_eq!(watch_id("wwwXyoutube.com/watch?v=abcdefghijk"), None);
}

#[test]
fn watch_ids_skips_non_matching_snippets() {
    let snippets = vec![
        s("www.youtube.com/watch?v=abcdefghijk"),
        s("nothing"),
        s("see www.youtube.com/watch?v=abcdefghijk again"),
        s("www.youtube.com/watch?v=0123456789_"),
    ];
    let mut r = watch_ids(&snippets);
    r.sort();
    assert_eq!(r, vec![s("0123456789_"), s("abcdefghijk")]);
}

#[test]
fn pagination_stops_at_total_and_ceiling() {
    assert_eq!(next_page_start(1, 10, 50), Some(11));
    assert_eq!(next_page_start(41, 10, 50), None);
    assert_eq!(next_page_start(41, 10, 51), Some(51));
    assert_eq!(next_page_start(91, 10, 1000), None);
    assert_eq!(next_page_start(81, 10, 1000), Some(91));
}

#[test]
fn total_count_parses_digits_only() {
    assert_eq!(parse_count("123"), Some(123));
    assert_eq!(parse_count("0"), Some(0));
    assert_eq!(parse_count(""), None);
    assert_eq!(parse_count("12a"), None);
    assert_eq!(parse_count("-5"), None);
    assert_eq!(parse_count("999999999999999999"), Some(999999999999999999));
    assert_eq!(parse_count("1000000000000000000"), None);
}

#[test]
fn status_live_is_exact() {
    assert!(status_is_live("live"));
    assert!(!status_is_live("none"));
    assert!(!status_is_live("Live"));
    assert!(!status_is_live("live "));
}

#[test]
fn location_set_keeps_full_precision() {
    let mut l = LocationSet::new();
    let a = coord(35.65858012345678, 139.70041098765432);
    let b = coord(-0.1, f64::MIN_POSITIVE);
    l.insert(s("a"), a);
    l.insert(s("b"), b);
    l.insert(s("a"), b);
    assert_eq!(l.len(), 2);
    assert_eq!(l.get(&s("a")), Some(b));
    assert_eq!(f64::from_bits(l.get(&s("b")).unwrap().lng_bits), f64::MIN_POSITIVE);
    assert_eq!(l.get(&s("c")), None);
    assert!(l.contains(&s("b")));
}

fn run_resolution(r: &mut Resolution, geocoder_calls: &mut Vec<String>, descriptor_calls: &mut Vec<String>) {
    loop {
        let answer = match r.request() {
            Request::Finished => break,
            Request::Metadata(id) => {
                if id == "meta" {
                    Answer::Metadata(Some(coord(1.5, 2.5)))
                } else {
                    Answer::Metadata(None)
                }
            }
            Request::Descriptor(id) => {
                descriptor_calls.push(id.clone());
                match id.as_str() {
                    "geo" => Answer::Descriptor(Some(Descriptor { title: s("Main St"), author: s("Traffic") })),
                    "fake" => Answer::Descriptor(Some(Descriptor { title: s("Camera view"), author: s("Bob") })),
                    "nowhere" => Answer::Descriptor(Some(Descriptor { title: s("Unknown"), author: s("Place") })),
                    _ => Answer::Descriptor(None),
                }
            }
            Request::Geocode(address) => {
                geocoder_calls.push(address.clone());
                if address == "Main St Traffic" {
                    Answer::Geocoded(Some(coord(3.5, 4.5)))
                } else {
                    Answer::Geocoded(None)
                }
            }
        };
        assert!(r.feed(answer));
    }
}

#[test]
fn cascade_partitions_candidates() {
    let candidates = vec![s("meta"), s("geo"), s("fake"), s("nowhere"), s("gone")];
    let mut r = Resolution::new(&candidates, vec![s("Camera view")]);
    let mut geocoded = vec![];
    let mut described = vec![];
    run_resolution(&mut r, &mut geocoded, &mut described);
    assert!(!described.contains(&s("meta")));
    assert_eq!(geocoded, vec![s("Main St Traffic"), s("Unknown Place")]);
    let out = r.finish();
    assert_eq!(out.from_metadata.get(&s("meta")), Some(coord(1.5, 2.5)));
    assert_eq!(out.from_metadata.len(), 1);
    assert_eq!(out.from_geocoding.get(&s("geo")), Some(coord(3.5, 4.5)));
    assert_eq!(out.from_geocoding.len(), 1);
    let mut black = out.blacklisted.clone();
    black.sort();
    assert_eq!(black, vec![s("fake"), s("gone"), s("nowhere")]);
    assert_eq!(out.rejected_addresses, vec![s("Camera view Bob")]);
}

#[test]
fn cascade_metadata_hit_skips_geocoder() {
    let mut r = Resolution::new(&vec![s("meta")], vec![]);
    let mut geocoded = vec![];
    let mut described = vec![];
    run_resolution(&mut r, &mut geocoded, &mut described);
    assert!(geocoded.is_empty());
    assert!(described.is_empty());
    assert!(r.is_finished());
}

#[test]
fn cascade_refuses_answer_of_wrong_kind() {
    let mut r = Resolution::new(&vec![s("x")], vec![]);
    assert!(!r.feed(Answer::Geocoded(Some(coord(1.0, 1.0)))));
    assert!(matches!(r.request(), Request::Metadata(id) if id == "x"));
}

#[test]
fn merge_keeps_dataset_and_blacklist_disjoint() {
    let mut locations = LocationSet::new();
    locations.insert(s("old"), coord(9.0, 9.0));
    let mut blacklist = vec![s("bad")];
    let discovered = vec![s("old"), s("bad"), s("meta"), s("fake")];
    let candidates = exclude_known(&discovered, &blacklist, &locations);
    let mut r = Resolution::new(&candidates, vec![s("Camera view")]);
    let mut g = vec![];
    let mut d = vec![];
    run_resolution(&mut r, &mut g, &mut d);
    let out = r.finish();
    merge_outcome(&mut locations, &mut blacklist, &out);
    assert_eq!(locations.len(), 2);
    assert!(locations.contains(&s("meta")));
    assert!(locations.contains(&s("old")));
    blacklist.sort();
    assert_eq!(blacklist, vec![s("bad"), s("fake")]);
    for id in &blacklist {
        assert!(!locations.contains(id));
    }
}

fn three_streams() -> LocationSet {
    let mut l = LocationSet::new();
    l.insert(s("missing"), coord(1.0, 1.0));
    l.insert(s("live"), coord(2.0, 2.0));
    l.insert(s("ended"), coord(3.0, 3.0));
    l
}

#[test]
fn revalidation_prunes_dead_streams() {
    let mut l = three_streams();
    let mut v = Revalidation::new(&l);
    loop {
        let o = match v.next_check() {
            Check::Finished => break,
            Check::Exists(id) => Observation::Exists(id != "missing"),
            Check::Status(id) => {
                if id == "live" {
                    Observation::Status(Ok(Some(s("live"))))
                } else {
                    Observation::Status(Ok(Some(s("none"))))
                }
            }
        };
        assert_eq!(v.observe(o), Ok(true));
    }
    v.apply(&mut l);
    assert_eq!(l.len(), 1);
    assert!(l.contains(&s("live")));
    assert!(!l.contains(&s("missing")));
    assert!(!l.contains(&s("ended")));
}

#[test]
fn revalidation_removes_on_transport_failure() {
    let mut l = LocationSet::new();
    l.insert(s("x"), coord(1.0, 1.0));
    let mut v = Revalidation::new(&l);
    assert_eq!(v.observe(Observation::Exists(true)), Ok(true));
    assert_eq!(v.observe(Observation::Status(Err(LookupError::Transport(s("timeout"))))), Ok(true));
    assert!(v.is_finished());
    v.apply(&mut l);
    assert_eq!(l.len(), 0);
}

#[test]
fn revalidation_quota_error_aborts() {
    let l = three_streams();
    let mut v = Revalidation::new(&l);
    assert_eq!(v.observe(Observation::Exists(true)), Ok(true));
    assert_eq!(v.observe(Observation::Status(Err(LookupError::QuotaExhausted))), Err(LookupError::QuotaExhausted));
    assert!(!v.is_finished());
    assert!(matches!(v.next_check(), Check::Status(_)));
    assert_eq!(l.len(), 3);
}

#[test]
fn revalidation_refuses_answer_of_wrong_kind() {
    let l = three_streams();
    let mut v = Revalidation::new(&l);
    assert_eq!(v.observe(Observation::Status(Ok(Some(s("live"))))), Ok(false));
    assert!(matches!(v.next_check(), Check::Exists(_)));
}

#[test]
fn identifier_lookup() {
    let v = vec![s("a"), s("b")];
    assert!(contains_id(&v, &s("b")));
    assert!(!contains_id(&v, &s("c")));
}

#[test]
fn lines_skip_empty_and_keep_order() {
    assert_eq!(lines_of("a\nb\n\nc"), vec![s("a"), s("b"), s("c")]);
    assert_eq!(lines_of(""), Vec::<String>::new());
    assert_eq!(lines_of("\n\n"), Vec::<String>::new());
    assert_eq!(lines_of("Camera view\n"), vec![s("Camera view")]);
}

#[test]
fn lines_round_trip() {
    let ls = vec![s("abcdefghijk"), s("Main St Camera view"), s("東京 ライブ")];
    let text = render_lines(&ls);
    assert_eq!(text, "abcdefghijk\nMain St Camera view\n東京 ライブ\n");
    assert_eq!(lines_of(&text), ls);
}

#[test]
fn compressed_lines_round_trip() {
    let ls = vec![s("abcdefghijk"), s("ZZZZZZZZZZZ")];
    let gz = encode_lines(&ls);
    assert_eq!(&gz[..2], &[0x1f, 0x8b]);
    assert_eq!(decode_lines(&gz), Some(ls));
    assert_eq!(decompress_text(&gz), Some(s("abcdefghijk\nZZZZZZZZZZZ\n")));
}

#[test]
fn compressed_text_rejects_garbage() {
    assert_eq!(decompress_text(&b"not gzip".to_vec()), None);
    assert_eq!(decode_lines(&vec![]), None);
    let invalid_utf8 = compress(&vec![0xff, 0xfe]);
    assert_eq!(decompress_text(&invalid_utf8), None);
    assert_eq!(decompress_text(&compress(&b"a\nb".to_vec())), Some(s("a\nb")));
}

#[test]
fn location_artifact_round_trip_is_exact() {
    let mut l = LocationSet::new();
    l.insert(s("abcdefghijk"), coord(35.658580123456789, 139.70041098765432));
    l.insert(s("ZZZZZZZZZZZ"), coord(-33.868820000000001, 151.20929999999998));
    l.insert(s("0123456789_"), coord(0.1 + 0.2, -1e-300));
    let mut wtr = csv::WriterBuilder::new().has_headers(false).from_writer(vec![]);
    for i in 0..l.len() {
        let c = l.coord_at(i);
        let lat = f64::from_bits(c.lat_bits).to_string();
        let lng = f64::from_bits(c.lng_bits).to_string();
        wtr.write_record([lat.as_str(), lng.as_str(), l.id_at(i).as_str()]).unwrap();
    }
    let gz = compress(&wtr.into_inner().unwrap());
    let text = decompress_text(&gz).unwrap();
    let mut back = LocationSet::new();
    let mut rdr = csv::ReaderBuilder::new().has_headers(false).from_reader(text.as_bytes());
    for rec in rdr.records() {
        let rec = rec.unwrap();
        let lat: f64 = rec[0].parse().unwrap();
        let lng: f64 = rec[1].parse().unwrap();
        back.insert(rec[2].to_string(), Coordinate::new(lat.to_bits(), lng.to_bits()));
    }
    assert_eq!(back.len(), l.len());
    for i in 0..l.len() {
        assert_eq!(back.get(l.id_at(i)), Some(l.coord_at(i)));
    }
}
