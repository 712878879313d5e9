use saveshop::listing::{assemble, ListingAssembler, ListingError, ListingFlavor};
use saveshop::model::{ContentType, ListingEntry, ListingPage, Locale};

fn entry(index: &str, kind: ContentType, id: &str) -> ListingEntry {
    ListingEntry { index: index.to_string(), kind, id: id.to_string() }
}

fn page(length: Option<usize>, offset: Option<usize>, total: usize, entries: Vec<ListingEntry>) -> ListingPage {
    ListingPage { length, offset, total, entries }
}

const PAGE1: &str = "<?xml version=\"1.0\"?><eshop><contents length=\"2\" offset=\"0\" total=\"3\"><content index=\"1\"><title id=\"T1\"/></content><content index=\"2\"><movie id=\"M1\"/></content></contents></eshop>";
const PAGE2: &str = "<?xml version=\"1.0\"?><eshop><contents length=\"1\" offset=\"2\" total=\"3\"><content index=\"3\"><title id=\"T2\"/></content></contents></eshop>";

fn page1() -> ListingPage {
    page(Some(2), Some(0), 3, vec![entry("1", ContentType::Title, "T1"), entry("2", ContentType::Movie, "M1")])
}

fn page2() -> ListingPage {
    page(Some(1), Some(2), 3, vec![entry("3", ContentType::Title, "T2")])
}

const MERGED: &str = "<?xml version=\"1.0\"?><eshop>\n<contents length=\"3\" offset=\"0\" total=\"3\">\n<content index=\"1\"><title id=\"T1\"/></content><content index=\"2\"><movie id=\"M1\"/></content>\n<content index=\"3\"><title id=\"T2\"/></content>\n</contents></eshop>\n";

#[test]
fn three_entries_in_two_pages() {
    let locale = Locale { region: "DE".to_string(), language: "de".to_string() };
    let mut a = ListingAssembler::new(ListingFlavor::Contents);
    let mut requests = Vec::new();
    let pages = [(page1(), PAGE1), (page2(), PAGE2)];
    let mut k = 0;
    while let Some(url) = a.next_page_url(&locale, "contents") {
        requests.push(url);
        let (p, raw) = &pages[k];
        a.accept(p, raw).unwrap();
        k += 1;
    }
    assert_eq!(requests.len(), 2);
    assert_eq!(requests[0], "https://samurai.ctr.shop.nintendo.net/samurai/ws/DE/contents?offset=0&shop_id=1&lang=de");
    assert_eq!(requests[1], "https://samurai.ctr.shop.nintendo.net/samurai/ws/DE/contents?offset=2&shop_id=1&lang=de");
    assert!(a.is_complete());
    let ids: Vec<(ContentType, String)> = a.references().iter().map(|r| (r.kind, r.id.clone())).collect();
    assert_eq!(
        ids,
        vec![
            (ContentType::Title, "T1".to_string()),
            (ContentType::Movie, "M1".to_string()),
            (ContentType::Title, "T2".to_string())
        ]
    );
    assert_eq!(a.document(), MERGED);
}

#[test]
fn replaying_recorded_pages_gives_the_same_document() {
    let recorded = vec![(page1(), PAGE1.to_string()), (page2(), PAGE2.to_string())];
    let (doc1, refs1) = assemble(ListingFlavor::Contents, &recorded).unwrap();
    let (doc2, refs2) = assemble(ListingFlavor::Contents, &recorded).unwrap();
    assert_eq!(doc1, doc2);
    assert_eq!(doc1, MERGED);
    assert_eq!(refs1.len(), 3);
    assert_eq!(refs2.len(), 3);
}

#[test]
fn empty_root_listing_finishes_on_first_page() {
    let mut a = ListingAssembler::new(ListingFlavor::Contents);
    let raw = "<eshop><contents total=\"0\"/></eshop>";
    assert_eq!(a.accept(&page(None, None, 0, vec![]), raw), Ok(()));
    assert!(a.is_complete());
    assert!(a.references().is_empty());
    assert_eq!(a.document(), "");
    let locale = Locale { region: "US".to_string(), language: "en".to_string() };
    assert_eq!(a.next_page_url(&locale, "contents"), None);
}

#[test]
fn empty_ranking_keeps_its_document() {
    let mut a = ListingAssembler::new(ListingFlavor::Ranking);
    let raw = "<eshop><ranking id=\"5\"/></eshop>";
    assert_eq!(a.accept(&page(Some(0), Some(0), 0, vec![]), raw), Ok(()));
    assert!(a.is_complete());
    assert_eq!(a.document(), format!("{}\n", raw));
}

#[test]
fn offset_mismatch_is_refused() {
    let mut a = ListingAssembler::new(ListingFlavor::Contents);
    let p = page(Some(2), Some(4), 3, vec![entry("5", ContentType::Title, "A"), entry("6", ContentType::Title, "B")]);
    assert_eq!(a.accept(&p, PAGE1), Err(ListingError::OffsetMismatch { expected: 0, reported: 4 }));
    assert_eq!(a.next_offset(), 0);
    assert!(!a.is_complete());
}

#[test]
fn offset_mismatch_on_a_later_page_is_refused() {
    let mut a = ListingAssembler::new(ListingFlavor::Contents);
    a.accept(&page1(), PAGE1).unwrap();
    let p = page(Some(1), Some(1), 3, vec![entry("3", ContentType::Title, "T2")]);
    assert_eq!(a.accept(&p, PAGE2), Err(ListingError::OffsetMismatch { expected: 2, reported: 1 }));
    assert_eq!(a.next_offset(), 2);
}

#[test]
fn length_mismatch_is_refused() {
    let mut a = ListingAssembler::new(ListingFlavor::Contents);
    let p = page(Some(2), Some(0), 3, vec![entry("1", ContentType::Title, "A")]);
    assert_eq!(a.accept(&p, PAGE1), Err(ListingError::LengthMismatch { expected: 2, found: 1 }));
}

#[test]
fn missing_length_means_whole_listing() {
    let mut a = ListingAssembler::new(ListingFlavor::Directory);
    let raw = "<eshop><directory><contents total=\"1\"><content index=\"1\"><title id=\"A\"/></content></contents></directory></eshop>";
    let p = page(None, None, 1, vec![entry("1", ContentType::Title, "A")]);
    assert_eq!(a.accept(&p, raw), Ok(()));
    assert!(a.is_complete());
    assert_eq!(
        a.document(),
        "<eshop><directory>\n<contents length=\"1\" offset=\"0\" total=\"1\">\n<content index=\"1\"><title id=\"A\"/></content>\n</contents></directory></eshop>\n"
    );
}

#[test]
fn too_many_entries_is_refused() {
    let mut a = ListingAssembler::new(ListingFlavor::Contents);
    let p = page(Some(2), Some(0), 1, vec![entry("1", ContentType::Title, "A"), entry("2", ContentType::Title, "B")]);
    assert_eq!(a.accept(&p, PAGE1), Err(ListingError::TooManyEntries { total: 1, found: 2 }));
}

#[test]
fn empty_page_of_non_empty_listing_is_refused() {
    let mut a = ListingAssembler::new(ListingFlavor::Ranking);
    let p = page(Some(0), Some(0), 3, vec![]);
    assert_eq!(a.accept(&p, PAGE1), Err(ListingError::EmptyPage { offset: 0 }));
}

#[test]
fn page_past_total_is_refused() {
    let mut a = ListingAssembler::new(ListingFlavor::Contents);
    a.accept(&page1(), PAGE1).unwrap();
    let p = page(Some(2), Some(2), 3, vec![entry("3", ContentType::Title, "C"), entry("4", ContentType::Title, "D")]);
    assert_eq!(a.accept(&p, PAGE2), Err(ListingError::PastTotal { offset: 2, found: 2, total: 3 }));
}

#[test]
fn changed_total_is_refused() {
    let mut a = ListingAssembler::new(ListingFlavor::Contents);
    a.accept(&page1(), PAGE1).unwrap();
    let p = page(Some(1), Some(2), 4, vec![entry("3", ContentType::Title, "T2")]);
    assert_eq!(a.accept(&p, PAGE2), Err(ListingError::TotalChanged { expected: 3, reported: 4 }));
}

#[test]
fn wrong_first_index_is_refused() {
    let mut a = ListingAssembler::new(ListingFlavor::Contents);
    let p = page(Some(2), Some(0), 3, vec![entry("2", ContentType::Title, "A"), entry("3", ContentType::Title, "B")]);
    assert_eq!(a.accept(&p, PAGE1), Err(ListingError::IndexMismatch { offset: 0 }));
}

#[test]
fn ranking_indices_restart_on_each_page() {
    let mut a = ListingAssembler::new(ListingFlavor::Ranking);
    a.accept(&page1(), PAGE1).unwrap();
    let p = page(Some(1), Some(2), 3, vec![entry("1", ContentType::Title, "T2")]);
    assert_eq!(a.accept(&p, PAGE2), Ok(()));
    assert!(a.is_complete());
}

#[test]
fn missing_envelope_is_refused() {
    let mut a = ListingAssembler::new(ListingFlavor::Contents);
    assert_eq!(a.accept(&page1(), "<eshop><list></list></eshop>"), Err(ListingError::MissingEnvelope));
    let mut b = ListingAssembler::new(ListingFlavor::Contents);
    assert_eq!(b.accept(&page1(), "<eshop><contents total=\"3\">"), Err(ListingError::MissingEnvelope));
}

#[test]
fn page_after_completion_is_refused() {
    let mut a = ListingAssembler::new(ListingFlavor::Contents);
    a.accept(&page1(), PAGE1).unwrap();
    a.accept(&page2(), PAGE2).unwrap();
    assert_eq!(a.accept(&page2(), PAGE2), Err(ListingError::AlreadyComplete));
}

#[test]
fn recorded_pages_that_stop_early_are_unfinished() {
    let recorded = vec![(page1(), PAGE1.to_string())];
    assert_eq!(assemble(ListingFlavor::Contents, &recorded).map(|_| ()), Err(ListingError::Unfinished { offset: 2 }));
}
