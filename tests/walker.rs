use saveshop::listing::ListingFlavor;
use saveshop::model::{ContentRef, ContentType, EndPoint};
use saveshop::walker::{Action, Seed, TitleInfo, WalkError, Walker};

fn cref(kind: ContentType, id: &str) -> ContentRef {
    ContentRef { kind, id: id.to_string() }
}

fn no_extras() -> TitleInfo {
    TitleInfo { aoc_available: false, demo_available: false, demo_ids: None, movie_ids: vec![] }
}

/// Runs the endpoint phase, handing back the given ranking identifiers.
fn run_endpoints(w: &mut Walker, rankings: Vec<String>) -> Vec<EndPoint> {
    let mut seen = Vec::new();
    loop {
        match w.next_action().unwrap() {
            Action::FetchEndpoint(e) => {
                seen.push(e);
                if e == EndPoint::Rankings {
                    w.ranking_ids(&rankings).unwrap();
                    return seen;
                }
            }
            other => panic!("unexpected {:?}", other),
        }
    }
}

#[test]
fn every_detail_is_fetched_once_per_locale() {
    let mut w = Walker::new(Seed::Discover, true);
    let endpoints = run_endpoints(&mut w, vec!["7".to_string()]);
    assert_eq!(endpoints.len(), 10);
    assert_eq!(endpoints[0], EndPoint::News);
    assert_eq!(endpoints[9], EndPoint::Rankings);

    let mut details = Vec::new();
    loop {
        match w.next_action().unwrap() {
            Action::AssembleListing { flavor, path } => match flavor {
                ListingFlavor::Ranking => {
                    assert_eq!(path, "ranking/7");
                    w.listed(&vec![cref(ContentType::Title, "T2")]).unwrap();
                }
                ListingFlavor::Contents => {
                    assert_eq!(path, "contents");
                    w.listed(&vec![cref(ContentType::Title, "T1"), cref(ContentType::Movie, "M1")]).unwrap();
                }
                ListingFlavor::Directory => {
                    assert_eq!(path, "directory/D1");
                    w.listed(&vec![cref(ContentType::Title, "T1"), cref(ContentType::Movie, "M2")]).unwrap();
                }
            },
            Action::FetchDirectoryList => w.directory_ids(Some(&vec!["D1".to_string()])).unwrap(),
            Action::FetchDetail { kind, id } => {
                details.push((kind, id.clone()));
                if kind == ContentType::Title {
                    let info = if id == "T1" {
                        TitleInfo {
                            aoc_available: false,
                            demo_available: true,
                            demo_ids: Some(vec!["X1".to_string()]),
                            movie_ids: vec!["M1".to_string(), "M3".to_string()],
                        }
                    } else {
                        no_extras()
                    };
                    w.title_detail(&info).unwrap();
                }
            }
            Action::Finished => break,
            other => panic!("unexpected {:?}", other),
        }
    }
    let expected = vec![
        (ContentType::Title, "T1".to_string()),
        (ContentType::Title, "T2".to_string()),
        (ContentType::Movie, "M1".to_string()),
        (ContentType::Movie, "M2".to_string()),
        (ContentType::Movie, "M3".to_string()),
        (ContentType::Demo, "X1".to_string()),
    ];
    assert_eq!(details, expected);
    assert!(matches!(w.next_action(), Ok(Action::Finished)));
}

#[test]
fn title_with_add_on_content_fetches_its_list_once() {
    let mut w = Walker::new(Seed::Only { title: Some("T9".to_string()), movie: None, directory: None }, false);
    run_endpoints(&mut w, vec![]);
    match w.next_action().unwrap() {
        Action::FetchDetail { kind, id } => {
            assert_eq!(kind, ContentType::Title);
            assert_eq!(id, "T9");
        }
        other => panic!("unexpected {:?}", other),
    }
    let info = TitleInfo { aoc_available: true, demo_available: false, demo_ids: None, movie_ids: vec![] };
    w.title_detail(&info).unwrap();
    let mut aocs = 0;
    let mut rest = Vec::new();
    loop {
        match w.next_action().unwrap() {
            Action::FetchAocs { id } => {
                assert_eq!(id, "T9");
                aocs += 1;
            }
            Action::FetchEcInfo { id } => rest.push(format!("ec_info {}", id)),
            Action::FetchPrices { id } => rest.push(format!("prices {}", id)),
            Action::Finished => break,
            other => panic!("unexpected {:?}", other),
        }
    }
    assert_eq!(aocs, 1);
    assert_eq!(rest, vec!["ec_info T9".to_string(), "prices T9".to_string()]);
}

#[test]
fn declared_demos_must_be_listed() {
    let mut w = Walker::new(Seed::Only { title: Some("T1".to_string()), movie: None, directory: None }, true);
    run_endpoints(&mut w, vec![]);
    assert!(matches!(w.next_action(), Ok(Action::FetchDetail { .. })));
    let info = TitleInfo { aoc_available: false, demo_available: true, demo_ids: Some(vec![]), movie_ids: vec![] };
    assert_eq!(w.title_detail(&info), Err(WalkError::MissingDemos));
    let info = TitleInfo { aoc_available: false, demo_available: true, demo_ids: None, movie_ids: vec![] };
    assert_eq!(w.title_detail(&info), Err(WalkError::MissingDemos));
}

#[test]
fn demo_in_a_listing_is_refused() {
    let mut w = Walker::new(Seed::Discover, true);
    run_endpoints(&mut w, vec![]);
    assert!(matches!(w.next_action(), Ok(Action::AssembleListing { flavor: ListingFlavor::Contents, .. })));
    assert_eq!(w.listed(&vec![cref(ContentType::Demo, "X")]), Err(WalkError::DemoInListing));
}

#[test]
fn events_out_of_turn_are_refused() {
    let mut w = Walker::new(Seed::Discover, true);
    assert_eq!(w.listed(&vec![]), Err(WalkError::OutOfTurn));
    assert_eq!(w.title_detail(&no_extras()), Err(WalkError::OutOfTurn));
    assert_eq!(w.directory_ids(None), Err(WalkError::OutOfTurn));
    run_endpoints(&mut w, vec![]);
    assert!(matches!(w.next_action(), Ok(Action::AssembleListing { .. })));
    assert!(matches!(w.next_action(), Err(WalkError::OutOfTurn)));
}

#[test]
fn directory_error_page_means_no_directories() {
    let mut w = Walker::new(Seed::Discover, true);
    run_endpoints(&mut w, vec![]);
    assert!(matches!(w.next_action(), Ok(Action::AssembleListing { .. })));
    w.listed(&vec![]).unwrap();
    assert!(matches!(w.next_action(), Ok(Action::FetchDirectoryList)));
    w.directory_ids(None).unwrap();
    assert!(matches!(w.next_action(), Ok(Action::Finished)));
}

#[test]
fn constrained_directory_brings_its_contents() {
    let mut w = Walker::new(Seed::Only { title: None, movie: None, directory: Some("D5".to_string()) }, true);
    run_endpoints(&mut w, vec!["R".to_string()]);
    match w.next_action().unwrap() {
        Action::AssembleListing { flavor: ListingFlavor::Ranking, .. } => {
            w.listed(&vec![cref(ContentType::Title, "NOT_WANTED")]).unwrap()
        }
        other => panic!("unexpected {:?}", other),
    }
    match w.next_action().unwrap() {
        Action::AssembleListing { flavor: ListingFlavor::Directory, path } => {
            assert_eq!(path, "directory/D5");
            w.listed(&vec![cref(ContentType::Movie, "M7")]).unwrap();
        }
        other => panic!("unexpected {:?}", other),
    }
    match w.next_action().unwrap() {
        Action::FetchDetail { kind, id } => {
            assert_eq!(kind, ContentType::Movie);
            assert_eq!(id, "M7");
        }
        other => panic!("unexpected {:?}", other),
    }
    assert!(matches!(w.next_action(), Ok(Action::Finished)));
}

#[test]
fn seeded_walk_requests_in_ascending_order() {
    let mut w = Walker::new(Seed::Only { title: Some("T5".to_string()), movie: Some("M9".to_string()), directory: None }, true);
    run_endpoints(&mut w, vec![]);
    match w.next_action().unwrap() {
        Action::FetchDetail { kind, id } => {
            assert_eq!(kind, ContentType::Title);
            assert_eq!(id, "T5");
        }
        other => panic!("unexpected {:?}", other),
    }
    let info = TitleInfo {
        aoc_available: false,
        demo_available: false,
        demo_ids: None,
        movie_ids: vec!["M2".to_string(), "M9".to_string()],
    };
    w.title_detail(&info).unwrap();
    let mut movies = Vec::new();
    loop {
        match w.next_action().unwrap() {
            Action::FetchDetail { kind, id } => {
                assert_eq!(kind, ContentType::Movie);
                movies.push(id);
            }
            Action::Finished => break,
            other => panic!("unexpected {:?}", other),
        }
    }
    assert_eq!(movies, vec!["M2".to_string(), "M9".to_string()]);
}
