use saveshop::default_to_one;
use saveshop::model::{locales_of, ContentType, EndPoint, Locale};
use saveshop::urls::{
    aocs_url, detail_url, ec_info_url, endpoint_url, languages_url, listing_url, movie_url_to_filename,
    ninja_baseurl, prices_url, samurai_baseurl, url_to_filename,
};

fn de() -> Locale {
    Locale { region: "DE".to_string(), language: "de".to_string() }
}

#[test]
fn base_addresses() {
    assert_eq!(samurai_baseurl("DE"), "https://samurai.ctr.shop.nintendo.net/samurai/ws/DE");
    assert_eq!(ninja_baseurl("JP"), "https://ninja.ctr.shop.nintendo.net/ninja/ws/JP");
}

#[test]
fn request_addresses() {
    let l = de();
    let base = "https://samurai.ctr.shop.nintendo.net/samurai/ws/DE";
    assert_eq!(endpoint_url(&l, EndPoint::PublisherContacts), format!("{}/publishers/contacts?shop_id=1&lang=de", base));
    assert_eq!(endpoint_url(&l, EndPoint::SearchCategory), format!("{}/searchcategory?shop_id=1&lang=de", base));
    assert_eq!(languages_url("DE"), format!("{}/languages?shop_id=1", base));
    assert_eq!(listing_url(&l, "directory/42", 150), format!("{}/directory/42?offset=150&shop_id=1&lang=de", base));
    assert_eq!(detail_url(&l, ContentType::Demo, "5001"), format!("{}/demo/5001?shop_id=1&lang=de", base));
    assert_eq!(aocs_url(&l, "5002"), format!("{}/title/5002/aocs?shop_id=1&lang=de", base));
    let ninja = "https://ninja.ctr.shop.nintendo.net/ninja/ws/DE";
    assert_eq!(ec_info_url(&l, "5003"), format!("{}/title/5003/ec_info?shop_id=1&lang=de", ninja));
    assert_eq!(prices_url(&l, "5004"), format!("{}/titles/online_prices?shop_id=1&lang=de&title[]=5004", ninja));
}

#[test]
fn endpoint_paths() {
    assert_eq!(EndPoint::Contents.path(), "contents");
    assert_eq!(EndPoint::Rankings.path(), "rankings");
    assert_eq!(ContentType::Title.path(), "title");
    assert_eq!(ContentType::Movie.path(), "movie");
}

#[test]
fn image_file_names() {
    assert_eq!(url_to_filename("https://kanzashi-ctr.cdn.nintendo.net/i/abc/def.jpg"), Some("kanzashi/abc/def.jpg".to_string()));
    assert_eq!(url_to_filename("https://kanzashi-wup.cdn.nintendo.net/i/x.png"), Some("kanzashi-wup/x.png".to_string()));
    assert_eq!(url_to_filename("https://example.com/i/x.png"), None);
    assert_eq!(url_to_filename("http://kanzashi-ctr.cdn.nintendo.net/i/x.png"), None);
    assert_eq!(url_to_filename("https://kanzashi-ctr.cdn.nintendo.net/x.png"), None);
}

#[test]
fn video_file_names() {
    assert_eq!(
        movie_url_to_filename("https://kanzashi-movie-ctr.cdn.nintendo.net/m/ab/cd.moflex"),
        Some("kanzashi-movie/ab/cd.moflex".to_string())
    );
    assert_eq!(movie_url_to_filename("https://kanzashi-ctr.cdn.nintendo.net/m/cd.moflex"), None);
}

#[test]
fn reported_total_defaults_to_one() {
    assert_eq!(default_to_one(), 1);
}

#[test]
fn one_locale_per_language() {
    let ls = locales_of("FR", &vec!["fr".to_string(), "en".to_string()]).unwrap();
    assert_eq!(ls.len(), 2);
    assert_eq!(ls[1].region, "FR");
    assert_eq!(ls[1].language, "en");
    assert!(locales_of("FR", &vec![]).is_none());
}

#[test]
fn image_hosts_keep_separate_files() {
    let a = url_to_filename("https://kanzashi-ctr.cdn.nintendo.net/i/same.png");
    let b = url_to_filename("https://kanzashi-wup.cdn.nintendo.net/i/same.png");
    assert!(a.is_some() && b.is_some());
    assert_ne!(a, b);
}
