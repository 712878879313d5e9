use saveshop::convert::{transcoder_args, select_video, ConvertError, VideoCatalog};
use saveshop::fetcher::{is_success, RetryPolicy, RetryStep, FetchError};
use saveshop::media::select_documents;
use saveshop::media::{
    demo_resources, directory_resources, movie_resources, title_resources, DemoMedia, DirectoryMedia, MovieFile,
    MovieMedia, ResourceKind, ScreenshotMedia, TitleMedia,
};

fn s(x: &str) -> String {
    x.to_string()
}

fn trailer() -> MovieMedia {
    MovieMedia {
        banner_url: Some(s("mb")),
        thumbnail_url: None,
        rating_icons: vec![s("mr")],
        files: vec![MovieFile { url: s("mv"), dimension: s("2d") }],
    }
}

#[test]
fn title_resources_in_fetch_order() {
    let t = TitleMedia {
        icon_url: Some(s("icon")),
        banner_url: None,
        thumbnails: vec![s("th1")],
        rating_icons: vec![s("r1"), s("r2")],
        screenshots: vec![ScreenshotMedia { images: vec![s("up"), s("low")], thumbnails: vec![s("st")] }],
        movies: vec![trailer()],
    };
    let got: Vec<(ResourceKind, String)> = title_resources(&t, false).into_iter().map(|r| (r.kind, r.url)).collect();
    assert_eq!(
        got,
        vec![
            (ResourceKind::Icon, s("icon")),
            (ResourceKind::Thumbnail, s("th1")),
            (ResourceKind::RatingIcon, s("r1")),
            (ResourceKind::RatingIcon, s("r2")),
            (ResourceKind::Screenshot, s("up")),
            (ResourceKind::Screenshot, s("low")),
            (ResourceKind::Thumbnail, s("st")),
            (ResourceKind::Banner, s("mb")),
            (ResourceKind::RatingIcon, s("mr")),
        ]
    );
    let with_videos = title_resources(&t, true);
    assert_eq!(with_videos.len(), 10);
    assert_eq!(with_videos[9].kind, ResourceKind::Video);
    assert_eq!(with_videos[9].url, "mv");
}

#[test]
fn other_documents_resources() {
    let m: Vec<(ResourceKind, String)> = movie_resources(&trailer(), true).into_iter().map(|r| (r.kind, r.url)).collect();
    assert_eq!(m, vec![(ResourceKind::Banner, s("mb")), (ResourceKind::RatingIcon, s("mr")), (ResourceKind::Video, s("mv"))]);
    let d = directory_resources(&DirectoryMedia { icon_url: None, banner_url: s("db") });
    assert_eq!(d.len(), 1);
    assert_eq!(d[0].kind, ResourceKind::Banner);
    let x = demo_resources(&DemoMedia { icon_url: Some(s("di")), rating_icons: vec![s("dr")] });
    assert_eq!(x.len(), 2);
    assert_eq!(x[1].url, "dr");
}

#[test]
fn videos_by_dimension() {
    let mut c = VideoCatalog::new();
    c.add_title_file("https://kanzashi-movie-ctr.cdn.nintendo.net/m/b.moflex", "3d");
    c.add_title_file("https://kanzashi-movie-ctr.cdn.nintendo.net/m/a.moflex", "anything");
    assert_eq!(c.add_movie_file("https://kanzashi-movie-ctr.cdn.nintendo.net/m/c.moflex", "2d"), Ok(()));
    assert_eq!(c.add_movie_file("https://kanzashi-movie-ctr.cdn.nintendo.net/m/d.moflex", "4d"), Err(ConvertError::UnknownDimension));
    assert!(c.is_3d("https://kanzashi-movie-ctr.cdn.nintendo.net/m/b.moflex"));
    assert!(!c.is_3d("https://kanzashi-movie-ctr.cdn.nintendo.net/m/a.moflex"));
    let all = c.all_videos().unwrap();
    assert_eq!(all.len(), 3);
    assert_eq!(all[0], "https://kanzashi-movie-ctr.cdn.nintendo.net/m/a.moflex");
    assert_eq!(select_video(&all, "kanzashi-movie/c.moflex"), Ok(2));
    assert_eq!(select_video(&all, "kanzashi-movie/z.moflex"), Err(ConvertError::NotFound));
    assert_eq!(select_video(&all, "elsewhere/c.moflex"), Err(ConvertError::NotAVideoPath));
}

#[test]
fn video_in_both_dimensions_is_refused() {
    let mut c = VideoCatalog::new();
    c.add_title_file("v", "3d");
    c.add_movie_file("v", "2d").unwrap();
    assert_eq!(c.all_videos().map(|_| ()), Err(ConvertError::BothDimensions));
}

#[test]
fn transcoder_arguments() {
    assert_eq!(transcoder_args("in.moflex", "in.mp4", false), vec![s("-y"), s("-i"), s("in.moflex"), s("in.mp4")]);
    assert_eq!(
        transcoder_args("in.moflex", "in.mp4", true),
        vec![s("-y"), s("-i"), s("in.moflex"), s("-vf"), s("stereo3d=al:sbsl"), s("in.mp4")]
    );
}

#[test]
fn retry_policies() {
    let forever = RetryPolicy::until_success();
    assert_eq!(forever.after_failure(1_000_000), RetryStep::RetryAfter(10));
    let three = RetryPolicy::at_most(3);
    assert_eq!(three.after_failure(2), RetryStep::RetryAfter(10));
    assert_eq!(three.after_failure(3), RetryStep::GiveUp);
    assert_eq!(RetryPolicy::exhausted(3), FetchError::Exhausted { attempts: 3 });
}

#[test]
fn success_statuses() {
    assert!(is_success(200));
    assert!(is_success(206));
    assert!(is_success(299));
    assert!(!is_success(199));
    assert!(!is_success(300));
    assert!(!is_success(404));
    assert!(!is_success(503));
}

#[test]
fn documents_under_a_constraint() {
    let names = vec![s("30"), s("10"), s("20"), s("10")];
    assert_eq!(select_documents(&names, false, &vec![]), vec![s("10"), s("20"), s("30")]);
    assert_eq!(select_documents(&names, true, &vec![s("30"), s("99"), s("10")]), vec![s("10"), s("30")]);
    assert!(select_documents(&names, true, &vec![]).is_empty());
}
