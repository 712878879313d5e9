//! The media resource fetcher's logic: which resources a detail document
//! references, in what order, and whether each must be transferred.
use vstd::prelude::*;
use vstd::string::*;
use crate::cache::{skips_transfer, ResourceCache};
use crate::frontier::{ids_view, strictly_sorted, Frontier};

verus! {

/// What a resource is to the document that references it.
#[derive(Clone, Copy, PartialEq, Eq, Structural, Debug)]
pub enum ResourceKind {
    Icon,
    Banner,
    Thumbnail,
    RatingIcon,
    Screenshot,
    Video,
}

/// One resource to fetch.
pub struct Resource {
    pub kind: ResourceKind,
    pub url: String,
}

/// One screenshot: its images (one per screen) and thumbnails.
pub struct ScreenshotMedia {
    pub images: Vec<String>,
    pub thumbnails: Vec<String>,
}

/// One video file of a movie.
pub struct MovieFile {
    pub url: String,
    pub dimension: String,
}

/// The resources of a movie document, or of a trailer inside a title.
pub struct MovieMedia {
    pub banner_url: Option<String>,
    pub thumbnail_url: Option<String>,
    pub rating_icons: Vec<String>,
    pub files: Vec<MovieFile>,
}

/// The resources of a title document.
pub struct TitleMedia {
    pub icon_url: Option<String>,
    pub banner_url: Option<String>,
    pub thumbnails: Vec<String>,
    pub rating_icons: Vec<String>,
    pub screenshots: Vec<ScreenshotMedia>,
    pub movies: Vec<MovieMedia>,
}

/// The resources of a directory document.
pub struct DirectoryMedia {
    pub icon_url: Option<String>,
    pub banner_url: String,
}

/// The resources of a demo document.
pub struct DemoMedia {
    pub icon_url: Option<String>,
    pub rating_icons: Vec<String>,
}

pub open spec fn opt_res(kind: ResourceKind, u: Option<String>) -> Seq<(ResourceKind, Seq<char>)> {
    match u {
        Some(s) => seq![(kind, s@)],
        None => seq![],
    }
}

pub open spec fn all_res(kind: ResourceKind, us: Seq<String>) -> Seq<(ResourceKind, Seq<char>)> {
    us.map_values(|s: String| (kind, s@))
}

pub open spec fn file_urls(fs: Seq<MovieFile>) -> Seq<String> {
    fs.map_values(|f: MovieFile| f.url)
}

/// The resources of a movie, videos only where `videos` is set.
pub open spec fn movie_res(m: MovieMedia, videos: bool) -> Seq<(ResourceKind, Seq<char>)> {
    opt_res(ResourceKind::Banner, m.banner_url) + opt_res(ResourceKind::Thumbnail, m.thumbnail_url)
        + all_res(ResourceKind::RatingIcon, m.rating_icons@) + if videos {
        all_res(ResourceKind::Video, file_urls(m.files@))
    } else {
        seq![]
    }
}

pub open spec fn screenshot_res(s: ScreenshotMedia) -> Seq<(ResourceKind, Seq<char>)> {
    all_res(ResourceKind::Screenshot, s.images@) + all_res(ResourceKind::Thumbnail, s.thumbnails@)
}

pub open spec fn screenshots_res(ss: Seq<ScreenshotMedia>) -> Seq<(ResourceKind, Seq<char>)>
    decreases ss.len(),
{
    if ss.len() == 0 {
        seq![]
    } else {
        screenshots_res(ss.drop_last()) + screenshot_res(ss.last())
    }
}

pub open spec fn movies_res(ms: Seq<MovieMedia>, videos: bool) -> Seq<(ResourceKind, Seq<char>)>
    decreases ms.len(),
{
    if ms.len() == 0 {
        seq![]
    } else {
        movies_res(ms.drop_last(), videos) + movie_res(ms.last(), videos)
    }
}

/// The resources of a title, in fetch order.
pub open spec fn title_res(t: TitleMedia, videos: bool) -> Seq<(ResourceKind, Seq<char>)> {
    opt_res(ResourceKind::Icon, t.icon_url) + opt_res(ResourceKind::Banner, t.banner_url)
        + all_res(ResourceKind::Thumbnail, t.thumbnails@) + all_res(
        ResourceKind::RatingIcon,
        t.rating_icons@,
    ) + screenshots_res(t.screenshots@) + movies_res(t.movies@, videos)
}

pub open spec fn res_view(v: Seq<Resource>) -> Seq<(ResourceKind, Seq<char>)> {
    v.map_values(|r: Resource| (r.kind, r.url@))
}

fn push_opt(out: &mut Vec<Resource>, kind: ResourceKind, u: &Option<String>)
    ensures
        res_view(final(out)@) == res_view(old(out)@) + opt_res(kind, *u),
{
    let ghost before = out@;
    if let Some(s) = u {
        out.push(Resource { kind, url: s.clone() });
    }
    proof {
        assert(res_view(out@) =~= res_view(before) + opt_res(kind, *u));
    }
}

fn push_all(out: &mut Vec<Resource>, kind: ResourceKind, us: &Vec<String>)
    ensures
        res_view(final(out)@) == res_view(old(out)@) + all_res(kind, us@),
{
    let ghost start = out@;
    let mut i: usize = 0;
    while i < us.len()
        invariant
            0 <= i <= us@.len(),
            res_view(out@) == res_view(start) + all_res(kind, us@.take(i as int)),
        decreases us@.len() - i,
    {
        let ghost before = out@;
        let c = us[i].clone();
        out.push(Resource { kind, url: c });
        proof {
            assert(res_view(out@) =~= res_view(before).push((kind, us@[i as int]@)));
            assert(all_res(kind, us@.take(i + 1)) =~= all_res(kind, us@.take(i as int)).push(
                (kind, us@[i as int]@),
            ));
            assert(res_view(out@) =~= res_view(start) + all_res(kind, us@.take(i + 1)));
        }
        i = i + 1;
    }
    proof {
        assert(us@.take(i as int) =~= us@);
    }
}

fn push_videos(out: &mut Vec<Resource>, fs: &Vec<MovieFile>)
    ensures
        res_view(final(out)@) == res_view(old(out)@) + all_res(ResourceKind::Video, file_urls(fs@)),
{
    let ghost start = out@;
    let mut i: usize = 0;
    while i < fs.len()
        invariant
            0 <= i <= fs@.len(),
            res_view(out@) == res_view(start) + all_res(
                ResourceKind::Video,
                file_urls(fs@.take(i as int)),
            ),
        decreases fs@.len() - i,
    {
        let ghost before = out@;
        let c = fs[i].url.clone();
        out.push(Resource { kind: ResourceKind::Video, url: c });
        proof {
            let k = ResourceKind::Video;
            assert(res_view(out@) =~= res_view(before).push((k, fs@[i as int].url@)));
            assert(all_res(k, file_urls(fs@.take(i + 1))) =~= all_res(
                k,
                file_urls(fs@.take(i as int)),
            ).push((k, fs@[i as int].url@)));
            assert(res_view(out@) =~= res_view(start) + all_res(k, file_urls(fs@.take(i + 1))));
        }
        i = i + 1;
    }
    proof {
        assert(fs@.take(i as int) =~= fs@);
    }
}

fn push_movie(out: &mut Vec<Resource>, m: &MovieMedia, videos: bool)
    ensures
        res_view(final(out)@) == res_view(old(out)@) + movie_res(*m, videos),
{
    let ghost start = out@;
    push_opt(out, ResourceKind::Banner, &m.banner_url);
    push_opt(out, ResourceKind::Thumbnail, &m.thumbnail_url);
    push_all(out, ResourceKind::RatingIcon, &m.rating_icons);
    if videos {
        push_videos(out, &m.files);
    }
    proof {
        assert(res_view(out@) =~= res_view(start) + movie_res(*m, videos));
    }
}

/// The resources of a movie document, in fetch order; videos only where
/// `videos` is set.
pub fn movie_resources(m: &MovieMedia, videos: bool) -> (r: Vec<Resource>)
    ensures
        res_view(r@) == movie_res(*m, videos),
{
    let mut out: Vec<Resource> = Vec::new();
    push_movie(&mut out, m, videos);
    proof {
        assert(res_view(Seq::<Resource>::empty()) =~= seq![]);
        assert(res_view(out@) =~= movie_res(*m, videos));
    }
    out
}

/// The resources of a title document, in fetch order: icon, banner,
/// thumbnails, rating icons, screenshots, then those of each trailer.
pub fn title_resources(t: &TitleMedia, videos: bool) -> (r: Vec<Resource>)
    ensures
        res_view(r@) == title_res(*t, videos),
{
    let mut out: Vec<Resource> = Vec::new();
    proof {
        assert(res_view(out@) =~= seq![]);
    }
    push_opt(&mut out, ResourceKind::Icon, &t.icon_url);
    push_opt(&mut out, ResourceKind::Banner, &t.banner_url);
    push_all(&mut out, ResourceKind::Thumbnail, &t.thumbnails);
    push_all(&mut out, ResourceKind::RatingIcon, &t.rating_icons);
    let ghost base = res_view(out@);
    let mut i: usize = 0;
    while i < t.screenshots.len()
        invariant
            0 <= i <= t.screenshots@.len(),
            res_view(out@) == base + screenshots_res(t.screenshots@.take(i as int)),
        decreases t.screenshots@.len() - i,
    {
        proof {
            assert(t.screenshots@.take(i + 1).drop_last() =~= t.screenshots@.take(i as int));
        }
        push_all(&mut out, ResourceKind::Screenshot, &t.screenshots[i].images);
        push_all(&mut out, ResourceKind::Thumbnail, &t.screenshots[i].thumbnails);
        proof {
            assert(res_view(out@) =~= base + screenshots_res(t.screenshots@.take(i + 1)));
        }
        i = i + 1;
    }
    proof {
        assert(t.screenshots@.take(i as int) =~= t.screenshots@);
    }
    let ghost base2 = res_view(out@);
    let mut j: usize = 0;
    while j < t.movies.len()
        invariant
            0 <= j <= t.movies@.len(),
            res_view(out@) == base2 + movies_res(t.movies@.take(j as int), videos),
        decreases t.movies@.len() - j,
    {
        proof {
            assert(t.movies@.take(j + 1).drop_last() =~= t.movies@.take(j as int));
        }
        push_movie(&mut out, &t.movies[j], videos);
        proof {
            assert(res_view(out@) =~= base2 + movies_res(t.movies@.take(j + 1), videos));
        }
        j = j + 1;
    }
    proof {
        assert(t.movies@.take(j as int) =~= t.movies@);
        assert(res_view(out@) =~= title_res(*t, videos));
    }
    out
}

/// The resources of a directory document: its icon, then its banner.
pub fn directory_resources(d: &DirectoryMedia) -> (r: Vec<Resource>)
    ensures
        res_view(r@) == opt_res(ResourceKind::Icon, d.icon_url) + seq![
            (ResourceKind::Banner, d.banner_url@),
        ],
{
    let mut out: Vec<Resource> = Vec::new();
    proof {
        assert(res_view(out@) =~= seq![]);
    }
    push_opt(&mut out, ResourceKind::Icon, &d.icon_url);
    let ghost before = out@;
    out.push(Resource { kind: ResourceKind::Banner, url: d.banner_url.clone() });
    proof {
        assert(res_view(out@) =~= res_view(before).push((ResourceKind::Banner, d.banner_url@)));
        assert(res_view(out@) =~= opt_res(ResourceKind::Icon, d.icon_url) + seq![
            (ResourceKind::Banner, d.banner_url@),
        ]);
    }
    out
}

/// The resources of a demo document: its icon, then its rating icons.
pub fn demo_resources(d: &DemoMedia) -> (r: Vec<Resource>)
    ensures
        res_view(r@) == opt_res(ResourceKind::Icon, d.icon_url) + all_res(
            ResourceKind::RatingIcon,
            d.rating_icons@,
        ),
{
    let mut out: Vec<Resource> = Vec::new();
    proof {
        assert(res_view(out@) =~= seq![]);
    }
    push_opt(&mut out, ResourceKind::Icon, &d.icon_url);
    push_all(&mut out, ResourceKind::RatingIcon, &d.rating_icons);
    proof {
        assert(res_view(out@) =~= opt_res(ResourceKind::Icon, d.icon_url) + all_res(
            ResourceKind::RatingIcon,
            d.rating_icons@,
        ));
    }
    out
}

/// What to do with a server response for a resource that may be on disk.
#[derive(Clone, Copy, PartialEq, Eq, Structural, Debug)]
pub enum ResponseStep {
    /// The file on disk has the reported length: keep it, record that length.
    KeepExisting(u64),
    /// Transfer the body.
    Download,
}

/// The decision after the server reported a content length: a file on disk
/// with exactly that length is kept.
pub open spec fn response_step(on_disk: Option<u64>, content_length: Option<u64>) -> ResponseStep {
    match (on_disk, content_length) {
        (Some(d), Some(c)) => if d == c {
            ResponseStep::KeepExisting(c)
        } else {
            ResponseStep::Download
        },
        _ => ResponseStep::Download,
    }
}

pub fn on_response(on_disk: Option<u64>, content_length: Option<u64>) -> (r: ResponseStep)
    ensures
        r == response_step(on_disk, content_length),
{
    match (on_disk, content_length) {
        (Some(d), Some(c)) => if d == c {
            ResponseStep::KeepExisting(c)
        } else {
            ResponseStep::Download
        },
        _ => ResponseStep::Download,
    }
}

/// Whether a video needs no request at all: any non-zero recorded length
/// counts, since a video is only recorded once complete.
pub fn video_is_cached(cache: &ResourceCache, url: &str) -> (r: bool)
    requires
        cache.inv(),
    ensures
        r == (cache@.contains_key(url@) && cache@[url@] != 0),
{
    match cache.lookup(url) {
        Some(n) => n != 0,
        None => false,
    }
}

/// Fetching the same resource for two documents of one locale: the first
/// fetch transfers it and records its length; the second finds that length
/// on disk and in the cache, transfers nothing, and adds no record.
pub proof fn lemma_shared_resource_fetched_once(
    m: Map<Seq<char>, u64>,
    url: Seq<char>,
    length: u64,
)
    requires
        !m.contains_key(url),
        length != 0,
    ensures
        !skips_transfer(m, url, None),
        skips_transfer(m.insert(url, length), url, Some(length)),
        m.insert(url, length).insert(url, length) == m.insert(url, length),
        m.insert(url, length).dom() == m.dom().insert(url),
{
    assert(m.insert(url, length).insert(url, length) =~= m.insert(url, length));
    assert(m.insert(url, length).dom() =~= m.dom().insert(url));
}

/// The kept documents to read, by file name: all of them, or under a
/// constraint only those wanted.
pub open spec fn selected(names: Set<Seq<char>>, constrained: bool, wanted: Set<Seq<char>>) -> Set<
    Seq<char>,
> {
    names.filter(|n: Seq<char>| !constrained || wanted.contains(n))
}

/// Picks the documents to read among the kept ones, in ascending order,
/// each once.
pub fn select_documents(names: &Vec<String>, constrained: bool, wanted: &Vec<String>) -> (r: Vec<
    String,
>)
    ensures
        ids_view(r@).to_set() == selected(
            ids_view(names@).to_set(),
            constrained,
            ids_view(wanted@).to_set(),
        ),
        strictly_sorted(ids_view(r@)),
{
    let mut want = Frontier::new();
    want.add_all(wanted);
    proof {
        assert(Seq::<Seq<char>>::empty().to_set() =~= Set::<Seq<char>>::empty());
        assert(want@.to_set() =~= ids_view(wanted@).to_set());
    }
    let ghost ws = ids_view(wanted@).to_set();
    let ghost nv = ids_view(names@);
    let mut picked = Frontier::new();
    let mut i: usize = 0;
    while i < names.len()
        invariant
            0 <= i <= names@.len(),
            nv == ids_view(names@),
            want@.to_set() == ws,
            picked.inv(),
            picked@.to_set() == selected(nv.take(i as int).to_set(), constrained, ws),
        decreases names@.len() - i,
    {
        let n = names[i].as_str();
        proof {
            assert(nv.take(i + 1) =~= nv.take(i as int) + seq![nv[i as int]]);
            Seq::lemma_to_set_insert_commutes(nv.take(i as int), nv[i as int]);
            assert(want@.to_set().contains(n@) == want@.contains(n@));
        }
        if !constrained || want.contains(n) {
            picked.add(n);
            proof {
                assert(picked@.to_set() =~= selected(nv.take(i + 1).to_set(), constrained, ws));
            }
        } else {
            proof {
                assert(picked@.to_set() =~= selected(nv.take(i + 1).to_set(), constrained, ws));
            }
        }
        i = i + 1;
    }
    proof {
        assert(nv.take(i as int) =~= nv);
    }
    picked.sort();
    let mut out: Vec<String> = Vec::new();
    let mut k: usize = 0;
    while k < picked.len()
        invariant
            0 <= k <= picked@.len(),
            ids_view(out@) == picked@.take(k as int),
        decreases picked@.len() - k,
    {
        let ghost before = out@;
        let c = picked.get(k).clone();
        out.push(c);
        proof {
            assert(ids_view(out@) =~= ids_view(before).push(c@));
            assert(picked@.take(k + 1) =~= picked@.take(k as int).push(picked@[k as int]));
        }
        k = k + 1;
    }
    proof {
        assert(picked@.take(k as int) =~= picked@);
    }
    out
}

/// The length that a finished fetch records: the reported length of a file
/// kept on disk, or the length of the body that was transferred.
pub open spec fn finished_length(step: ResponseStep, body_len: u64) -> u64 {
    match step {
        ResponseStep::KeepExisting(n) => n,
        ResponseStep::Download => body_len,
    }
}

/// Records a finished resource fetch in the cache.
pub fn record_finished(cache: &mut ResourceCache, url: &str, step: ResponseStep, body_len: u64)
    requires
        old(cache).inv(),
    ensures
        final(cache).inv(),
        final(cache)@ == old(cache)@.insert(url@, finished_length(step, body_len)),
{
    let n = match step {
        ResponseStep::KeepExisting(n) => n,
        ResponseStep::Download => body_len,
    };
    cache.record(url, n);
}

} // verus!
