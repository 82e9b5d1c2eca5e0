use city_assets::batch::{chunk_bounds, chunk_count, tally, ProgressCounter};
use city_assets::candidates::{build_candidates, entities_of, mark_ambiguous, pending_entities, Candidate};
use city_assets::editing::files_to_edit;
use city_assets::download::{asset_file_name, derive_extension, download_jobs, AssetRole};
use city_assets::entity::{file_stem, format_file_name, format_file_name_parts, stems_of, City, Voivodeship};
use city_assets::report::ReturnReport;
use city_assets::resolver::{
    collect_resolved, default_pattern_pairs, extract, normalize_links, page_link, page_url, suffixes_for, Extraction,
    FetchOutcome, Links, PatternPair, Resolver, Step,
};

fn city(identifier: &str, name: &str, powiat: &str, voivodeship: &str) -> City {
    City {
        identifier: identifier.to_string(),
        name: name.to_string(),
        powiat: powiat.to_string(),
        area_ha: 100,
        area_km: 1,
        total_population: 1000,
        population_per_km: 1000,
        voivodeship: voivodeship.to_string(),
    }
}

fn strings(items: &[&str]) -> Vec<String> {
    items.iter().map(|s| s.to_string()).collect()
}

const PAGE: &str = r#"<table><tr class="grafika iboxs"><td><img src="//upload.example.org/thumb/a/ab/View.jpg/250px-View.jpg" width="250"></td></tr>
<tr><td><img alt="Herb" src="//upload.example.org/herb.svg" width="10"></td></tr></table>"#;

#[test]
fn entity_key_replaces_spaces() {
    assert_eq!(format_file_name_parts("12 34", "Nowa Wies"), "12_34+Nowa_Wies");
    assert_eq!(format_file_name_parts("12\t34", "Nowa\u{a0}Wies"), "12_34+Nowa_Wies");
    let c = city("0201011", "Bolesławiec", "bolesławiecki", "dolnośląskie");
    assert_eq!(format_file_name(&c), "0201011+Bolesławiec");
}

#[test]
fn stems_drop_extensions() {
    assert_eq!(file_stem("dir/123+Nowa.webp"), Some("123+Nowa".to_string()));
    assert_eq!(file_stem("123+Nowa.webp"), Some("123+Nowa".to_string()));
    assert_eq!(file_stem("a.tar.gz"), Some("a.tar".to_string()));
    assert_eq!(file_stem(".bashrc"), Some(".bashrc".to_string()));
    assert_eq!(file_stem(".."), None);
    let stems = stems_of(&strings(&["a/1+X.png", "b/2+Y.svg"]));
    assert_eq!(stems, strings(&["1+X", "2+Y"]));
}

#[test]
fn half_stored_entity_stays_pending() {
    let cities = vec![city("123", "Nowa", "p", "v"), city("456", "Stara", "p", "v")];
    let emblems = strings(&["123+Nowa", "456+Stara"]);
    let backgrounds = strings(&["456+Stara"]);
    let pending = pending_entities(&cities, &emblems, &backgrounds);
    assert_eq!(pending.len(), 1);
    assert_eq!(pending[0].identifier, "123");
}

#[test]
fn fully_stored_entities_are_excluded() {
    let dataset = vec![Voivodeship {
        name: "v".to_string(),
        content: vec![city("1", "A", "p", "v"), city("2", "B", "p", "v")],
    }];
    let stored = strings(&["1+A", "2+B"]);
    let candidates = build_candidates(&dataset, &stored, &stored);
    assert!(candidates.is_empty());
}

#[test]
fn shared_names_are_marked_and_reversed() {
    let dataset = vec![
        Voivodeship {
            name: "pomorskie".to_string(),
            content: vec![city("1", "Wilkowo", "kartuski", "pomorskie"), city("3", "Gdynia", "gdyński", "pomorskie")],
        },
        Voivodeship {
            name: "lubuskie".to_string(),
            content: vec![city("2", "Wilkowo", "świebodziński", "lubuskie")],
        },
    ];
    let candidates = build_candidates(&dataset, &vec![], &vec![]);
    assert_eq!(candidates.len(), 3);
    assert!(candidates[0].ambiguous);
    assert!(!candidates[1].ambiguous);
    assert!(candidates[2].ambiguous);

    let plain = suffixes_for(&candidates[1].city, false);
    assert_eq!(plain, strings(&["", "_(miasto)", "_(województwo_pomorskie)", "_(powiat_gdyński)"]));
    let reversed = suffixes_for(&candidates[0].city, true);
    assert_eq!(reversed, strings(&["_(powiat_kartuski)", "_(województwo_pomorskie)", "_(miasto)", ""]));

    let mut keys = Vec::new();
    for candidate in [&candidates[0], &candidates[2]] {
        let mut resolver = Resolver::new(candidate, default_pattern_pairs());
        match resolver.current_step() {
            Step::Fetch { url, .. } => assert!(url.contains("/wiki/Wilkowo_(powiat_")),
            _ => panic!("expected a fetch"),
        }
        match resolver.advance(FetchOutcome::Document(PAGE.to_string())) {
            Step::Resolved { key, links } => {
                assert_eq!(links.coa_link, "https://upload.example.org/herb.svg");
                keys.push(key);
            }
            _ => panic!("expected a resolution"),
        }
    }
    assert_eq!(keys, strings(&["1+Wilkowo", "2+Wilkowo"]));
    assert_ne!(keys[0], keys[1]);
}

#[test]
fn page_links_and_urls() {
    assert_eq!(page_link("Nowa Wieś", "_(miasto)"), "Nowa_Wieś_(miasto)");
    assert_eq!(page_url("Gdynia"), "https://pl.wikipedia.org/wiki/Gdynia");
}

#[test]
fn extraction_outcomes() {
    let pair = PatternPair {
        emblem: r#"<img .*?alt="Herb" .*?src="(.+?)".*?>"#.to_string(),
        background: r#"(?s)<tr class="grafika iboxs.*?<img .*?src="(.+?)".*?>"#.to_string(),
    };
    assert!(matches!(extract(&pair, "<p>nothing</p>"), Extraction::NoEmblem));
    assert!(matches!(
        extract(&pair, r#"<img alt="Herb" src="//x/h.svg" >"#),
        Extraction::NoBackground
    ));
    let same = r#"<tr class="grafika iboxs"><img alt="Herb" src="//x/h.svg" ></tr>"#;
    assert!(matches!(extract(&pair, same), Extraction::Repeated));
    match extract(&pair, PAGE) {
        Extraction::Found { emblem, background } => {
            assert_eq!(emblem, "//upload.example.org/herb.svg");
            assert_eq!(background, "//upload.example.org/thumb/a/ab/View.jpg/250px-View.jpg");
        }
        _ => panic!("expected both images"),
    }
}

#[test]
fn background_points_at_full_size_file() {
    let links = normalize_links(
        "//upload.example.org/herb.svg",
        "//upload.example.org/thumb/a/ab/View.jpg/250px-View.jpg",
    );
    assert_eq!(links.coa_link, "https://upload.example.org/herb.svg");
    assert_eq!(links.bg_link, "https://upload.example.org/a/ab/View.jpg");
}

#[test]
fn resolver_walks_suffixes_then_pairs() {
    let candidate = Candidate { city: city("7", "Lipno", "lipnowski", "kujawsko-pomorskie"), ambiguous: false };
    let pairs = vec![
        PatternPair { emblem: "E1=(.+?);".to_string(), background: "B1=(.+?);".to_string() },
        PatternPair { emblem: "E2=(.+?);".to_string(), background: "B2=(.+?);".to_string() },
    ];
    let mut resolver = Resolver::new(&candidate, pairs);
    let mut seen = Vec::new();
    let mut step = resolver.current_step();
    for _ in 0..5 {
        match step {
            Step::Fetch { link, .. } => seen.push((resolver.pair, link)),
            _ => panic!("expected a fetch"),
        }
        step = resolver.advance(FetchOutcome::Failed);
    }
    assert_eq!(seen[0], (0, "Lipno".to_string()));
    assert_eq!(seen[1], (0, "Lipno_(miasto)".to_string()));
    assert_eq!(seen[3], (0, "Lipno_(powiat_lipnowski)".to_string()));
    assert_eq!(seen[4], (1, "Lipno".to_string()));
    // pair 1 matches only same references, then distinct ones
    match resolver.advance(FetchOutcome::Document("E2=x; B2=x;".to_string())) {
        Step::Fetch { link, .. } => assert_eq!(link, "Lipno_(województwo_kujawsko-pomorskie)"),
        _ => panic!("a repeated image must not be accepted"),
    }
    match resolver.advance(FetchOutcome::Document("E2=//a/e.png; B2=//b/c/f.jpg;".to_string())) {
        Step::Resolved { key, links } => {
            assert_eq!(key, "7+Lipno");
            assert_eq!(links.coa_link, "https://a/e.png");
            assert_eq!(links.bg_link, "https://b/c");
        }
        _ => panic!("expected a resolution"),
    }
}

#[test]
fn resolver_exhausts_after_last_attempt() {
    let candidate = Candidate { city: city("8", "Koło", "kolski", "wielkopolskie"), ambiguous: true };
    let pairs = vec![PatternPair { emblem: "E=(.+?);".to_string(), background: "B=(.+?);".to_string() }];
    let mut resolver = Resolver::new(&candidate, pairs);
    let mut fetches = 0;
    let mut step = resolver.current_step();
    while let Step::Fetch { .. } = step {
        fetches += 1;
        step = resolver.advance(FetchOutcome::Document("no images here".to_string()));
    }
    assert_eq!(fetches, 4);
    assert!(matches!(step, Step::Exhausted));
    assert!(resolver.finished);
}

#[test]
fn extension_from_content_type() {
    assert_eq!(derive_extension(Some("image/svg+xml")), "svg");
    assert_eq!(derive_extension(Some("image/webp")), "webp");
    assert_eq!(derive_extension(Some("image/png")), "png");
    assert_eq!(derive_extension(None), "raw");
    assert_eq!(derive_extension(Some("text/html")), "html");
    assert_eq!(derive_extension(Some("application/octet-stream")), "octet-stream");
    assert_eq!(derive_extension(Some("application/atom+xml")), "atom");
    assert_eq!(derive_extension(Some("webp")), "webp");
    assert_eq!(asset_file_name("1+A", "svg"), "1+A.svg");
}

#[test]
fn chunks_cover_every_item() {
    assert_eq!(chunk_count(10, 5), 2);
    assert_eq!(chunk_count(11, 5), 3);
    assert_eq!(chunk_count(0, 5), 0);
    assert_eq!(chunk_bounds(11, 5), vec![(0, 5), (5, 10), (10, 11)]);
    assert!(chunk_bounds(0, 3).is_empty());
}

#[test]
fn ten_entities_with_three_failed_downloads() {
    let links: Vec<(String, Links)> = (0..10)
        .map(|i| {
            (
                format!("{i}+City"),
                Links { coa_link: format!("https://e/{i}.svg"), bg_link: format!("https://b/{i}.jpg") },
            )
        })
        .collect();
    let jobs = download_jobs(&links);
    assert_eq!(jobs.len(), 20);
    assert!(jobs[0].role == AssetRole::Emblem && jobs[1].role == AssetRole::Background);
    assert_eq!(jobs[3].url, "https://b/1.jpg");
    assert_eq!(chunk_count(links.len(), 5), 2);
    let mut outcomes = vec![true; 20];
    outcomes[2] = false;
    outcomes[7] = false;
    outcomes[19] = false;
    let report = ReturnReport::from_outcomes("DOWNLOADS".to_string(), 5, &outcomes);
    assert_eq!(report.amount_ok, 17);
    assert_eq!(report.amount_err, 3);
    assert_eq!(tally(&outcomes), (17, 3));
}

#[test]
fn reports_sum_fieldwise() {
    let a = ReturnReport { job_name: "SCRAPER".to_string(), duration_nanos: 10, amount_ok: 3, amount_err: 1 };
    let b = ReturnReport { job_name: "DOWNLOADS".to_string(), duration_nanos: 5, amount_ok: 4, amount_err: 2 };
    let total = a.add(b);
    assert_eq!(total.job_name, "TOTAL");
    assert_eq!(total.duration_nanos, 15);
    assert_eq!(total.amount_ok, 7);
    assert_eq!(total.amount_err, 3);
}

#[test]
fn progress_labels_are_consecutive() {
    let mut counter = ProgressCounter::new();
    let labels: Vec<u32> = (0..5).map(|_| counter.tick()).collect();
    assert_eq!(labels, vec![1, 2, 3, 4, 5]);
    assert_eq!(counter.completed, 5);
}

#[test]
fn resolved_outcomes_are_collected_in_order() {
    let links = |n: &str| Links { coa_link: format!("e{n}"), bg_link: format!("b{n}") };
    let outcomes = vec![
        Some(("1+A".to_string(), links("1"))),
        None,
        Some(("3+C".to_string(), links("3"))),
        None,
    ];
    let resolved = collect_resolved(&outcomes);
    assert_eq!(resolved.len(), 2);
    assert_eq!(resolved[0].0, "1+A");
    assert_eq!(resolved[1].1.bg_link, "b3");
    let flags: Vec<bool> = outcomes.iter().map(Option::is_some).collect();
    let report = ReturnReport::from_outcomes("SCRAPER".to_string(), 0, &flags);
    assert_eq!((report.amount_ok, report.amount_err), (2, 2));
}

#[test]
fn entities_keep_dataset_order() {
    let dataset = vec![
        Voivodeship { name: "a".to_string(), content: vec![city("1", "X", "p", "a"), city("2", "Y", "p", "a")] },
        Voivodeship { name: "b".to_string(), content: vec![] },
        Voivodeship { name: "c".to_string(), content: vec![city("3", "X", "p", "c")] },
    ];
    let all = entities_of(&dataset);
    let ids: Vec<&str> = all.iter().map(|c| c.identifier.as_str()).collect();
    assert_eq!(ids, vec!["1", "2", "3"]);
    let marked = mark_ambiguous(&all);
    assert_eq!(marked.iter().map(|c| c.ambiguous).collect::<Vec<_>>(), vec![true, false, true]);
}

#[test]
fn resolver_without_patterns_is_exhausted() {
    let candidate = Candidate { city: city("9", "Ełk", "ełcki", "warmińsko-mazurskie"), ambiguous: false };
    let resolver = Resolver::new(&candidate, Vec::new());
    assert!(resolver.finished);
    assert!(matches!(resolver.current_step(), Step::Exhausted));
}

#[test]
fn only_unedited_sources_are_selected() {
    let cities = vec![city("1", "A", "p", "v"), city("2", "B", "p", "v"), city("3", "C", "p", "v")];
    let files = vec![
        ("1+A".to_string(), "svg".to_string()),
        ("2+B".to_string(), "jpg".to_string()),
        ("1+A".to_string(), "png".to_string()),
    ];
    let edited = strings(&["2+B"]);
    assert_eq!(files_to_edit(&cities, &files, &edited), strings(&["1+A.png"]));
}

#[test]
fn pattern_pairs_in_priority_order() {
    let pairs = default_pattern_pairs();
    assert_eq!(pairs.len(), 3);
    assert_eq!(pairs[0].emblem, r#"<img .*?alt="Herb" .*?src="(.+?)".*?>"#);
    assert_eq!(pairs[0].background, r#"(?s)<tr class="grafika iboxs.*?<img .*?src="(.+?)".*?>"#);
    assert_eq!(pairs[1].background, r#"(?s).*<figure .*?typeof="mw:File/Thumb".*?<img .*?src="(.+?)".*?>"#);
    assert_eq!(pairs[2].emblem, r#"<img .*?src="(.+?COA.+?)".*?>"#);
    assert_eq!(pairs[2].background, r#"(?i)<img .*?alt="Ilustracja" .*?src="(.+?)".*?>"#);
}

#[test]
fn namesakes_write_distinct_files() {
    let links = vec![
        ("101+Wilkowo".to_string(), Links { coa_link: "https://e/1.svg".to_string(), bg_link: "https://b/1".to_string() }),
        ("202+Wilkowo".to_string(), Links { coa_link: "https://e/2.svg".to_string(), bg_link: "https://b/2".to_string() }),
    ];
    let jobs = download_jobs(&links);
    let names: Vec<(bool, String)> = jobs
        .iter()
        .map(|j| (j.role == AssetRole::Emblem, asset_file_name(&j.stem, "webp")))
        .collect();
    for a in 0..names.len() {
        for b in 0..names.len() {
            if a != b {
                assert_ne!(names[a], names[b]);
            }
        }
    }
}
