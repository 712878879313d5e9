//! Addresses of the remote services and the local file names of resources.
use vstd::prelude::*;
use vstd::string::*;
use crate::model::{endpoint_path, kind_path, ContentType, EndPoint, Locale};
use crate::text::{decimal, decimal_string, starts_with, strip_prefix};

verus! {

/// Base address of the listing and detail service for a region.
pub open spec fn samurai_base(region: Seq<char>) -> Seq<char> {
    "https://samurai.ctr.shop.nintendo.net/samurai/ws/"@ + region
}

/// Base address of the pricing and id-mapping service for a region.
pub open spec fn ninja_base(region: Seq<char>) -> Seq<char> {
    "https://ninja.ctr.shop.nintendo.net/ninja/ws/"@ + region
}

/// The query that selects the catalog and a language.
pub open spec fn lang_query(language: Seq<char>) -> Seq<char> {
    "?shop_id=1&lang="@ + language
}

pub fn samurai_baseurl(region: &str) -> (r: String)
    ensures
        r@ == samurai_base(region@),
{
    String::from_str("https://samurai.ctr.shop.nintendo.net/samurai/ws/").concat(region)
}

pub fn ninja_baseurl(region: &str) -> (r: String)
    ensures
        r@ == ninja_base(region@),
{
    String::from_str("https://ninja.ctr.shop.nintendo.net/ninja/ws/").concat(region)
}

/// Address of a named endpoint for a locale.
pub open spec fn endpoint_address(region: Seq<char>, language: Seq<char>, e: EndPoint) -> Seq<
    char,
> {
    samurai_base(region) + "/"@ + endpoint_path(e) + lang_query(language)
}

pub fn endpoint_url(locale: &Locale, e: EndPoint) -> (r: String)
    ensures
        r@ == endpoint_address(locale.region@, locale.language@, e),
{
    samurai_baseurl(locale.region.as_str()).concat("/").concat(e.path()).concat(
        "?shop_id=1&lang=",
    ).concat(locale.language.as_str())
}

/// Address of the language list of a region, which takes no language.
pub open spec fn languages_address(region: Seq<char>) -> Seq<char> {
    samurai_base(region) + "/languages?shop_id=1"@
}

pub fn languages_url(region: &str) -> (r: String)
    ensures
        r@ == languages_address(region@),
{
    samurai_baseurl(region).concat("/languages?shop_id=1")
}

/// Address of one page of a paginated listing: `path` names the listing
/// below the base address, `offset` the first entry wanted.
pub open spec fn listing_address(
    region: Seq<char>,
    language: Seq<char>,
    path: Seq<char>,
    offset: nat,
) -> Seq<char> {
    samurai_base(region) + "/"@ + path + "?offset="@ + decimal(offset) + "&shop_id=1&lang="@
        + language
}

pub fn listing_url(locale: &Locale, path: &str, offset: usize) -> (r: String)
    ensures
        r@ == listing_address(locale.region@, locale.language@, path@, offset as nat),
{
    let n = decimal_string(offset);
    samurai_baseurl(locale.region.as_str()).concat("/").concat(path).concat("?offset=").concat(
        n.as_str(),
    ).concat("&shop_id=1&lang=").concat(locale.language.as_str())
}

/// Address of the detail document of one item.
pub open spec fn detail_address(
    region: Seq<char>,
    language: Seq<char>,
    kind: ContentType,
    id: Seq<char>,
) -> Seq<char> {
    samurai_base(region) + "/"@ + kind_path(kind) + "/"@ + id + lang_query(language)
}

pub fn detail_url(locale: &Locale, kind: ContentType, id: &str) -> (r: String)
    ensures
        r@ == detail_address(locale.region@, locale.language@, kind, id@),
{
    samurai_baseurl(locale.region.as_str()).concat("/").concat(kind.path()).concat("/").concat(
        id,
    ).concat("?shop_id=1&lang=").concat(locale.language.as_str())
}

/// Address of the add-on content list of a title.
pub open spec fn aocs_address(region: Seq<char>, language: Seq<char>, id: Seq<char>) -> Seq<
    char,
> {
    samurai_base(region) + "/title/"@ + id + "/aocs"@ + lang_query(language)
}

pub fn aocs_url(locale: &Locale, id: &str) -> (r: String)
    ensures
        r@ == aocs_address(locale.region@, locale.language@, id@),
{
    samurai_baseurl(locale.region.as_str()).concat("/title/").concat(id).concat("/aocs").concat(
        "?shop_id=1&lang=",
    ).concat(locale.language.as_str())
}

/// Address of the id-mapping record of a title or demo.
pub open spec fn ec_info_address(region: Seq<char>, language: Seq<char>, id: Seq<char>) -> Seq<
    char,
> {
    ninja_base(region) + "/title/"@ + id + "/ec_info"@ + lang_query(language)
}

pub fn ec_info_url(locale: &Locale, id: &str) -> (r: String)
    ensures
        r@ == ec_info_address(locale.region@, locale.language@, id@),
{
    ninja_baseurl(locale.region.as_str()).concat("/title/").concat(id).concat("/ec_info").concat(
        "?shop_id=1&lang=",
    ).concat(locale.language.as_str())
}

/// Address of the price record of a title.
pub open spec fn prices_address(region: Seq<char>, language: Seq<char>, id: Seq<char>) -> Seq<
    char,
> {
    ninja_base(region) + "/titles/online_prices"@ + lang_query(language) + "&title[]="@ + id
}

pub fn prices_url(locale: &Locale, id: &str) -> (r: String)
    ensures
        r@ == prices_address(locale.region@, locale.language@, id@),
{
    ninja_baseurl(locale.region.as_str()).concat("/titles/online_prices").concat(
        "?shop_id=1&lang=",
    ).concat(locale.language.as_str()).concat("&title[]=").concat(id)
}

/// The two content-delivery prefixes of image resources.
pub open spec fn ctr_image_prefix() -> Seq<char> {
    "https://kanzashi-ctr.cdn.nintendo.net/i/"@
}

pub open spec fn wup_image_prefix() -> Seq<char> {
    "https://kanzashi-wup.cdn.nintendo.net/i/"@
}

/// The content-delivery prefix of video resources.
pub open spec fn movie_prefix() -> Seq<char> {
    "https://kanzashi-movie-ctr.cdn.nintendo.net/m/"@
}

/// Local file name of an image resource, in a directory of its host's own;
/// none for an unknown host.
pub open spec fn image_filename(url: Seq<char>) -> Option<Seq<char>> {
    if starts_with(url, ctr_image_prefix()) {
        Some("kanzashi/"@ + url.skip(ctr_image_prefix().len() as int))
    } else if starts_with(url, wup_image_prefix()) {
        Some("kanzashi-wup/"@ + url.skip(wup_image_prefix().len() as int))
    } else {
        None
    }
}

/// Local file name of a video resource; none for an unknown host.
pub open spec fn movie_filename(url: Seq<char>) -> Option<Seq<char>> {
    if starts_with(url, movie_prefix()) {
        Some("kanzashi-movie/"@ + url.skip(movie_prefix().len() as int))
    } else {
        None
    }
}

/// The view of an optional string.
pub open spec fn opt_view(s: Option<String>) -> Option<Seq<char>> {
    match s {
        Some(t) => Some(t@),
        None => None,
    }
}

proof fn lemma_strip(s: Seq<char>, p: Seq<char>, rest: Seq<char>)
    requires
        s == p + rest,
    ensures
        starts_with(s, p),
        rest == s.skip(p.len() as int),
{
    assert(s.subrange(0, p.len() as int) =~= p);
    assert(rest =~= s.skip(p.len() as int));
}

/// Maps an image address of a known content-delivery host to its local file.
pub fn url_to_filename(url: &str) -> (r: Option<String>)
    ensures
        opt_view(r) == image_filename(url@),
{
    match strip_prefix(url, "https://kanzashi-ctr.cdn.nintendo.net/i/") {
        Some(rest) => {
            proof {
                lemma_strip(url@, ctr_image_prefix(), rest@);
            }
            Some(String::from_str("kanzashi/").concat(rest))
        },
        None => match strip_prefix(url, "https://kanzashi-wup.cdn.nintendo.net/i/") {
            Some(rest) => {
                proof {
                    lemma_strip(url@, wup_image_prefix(), rest@);
                }
                Some(String::from_str("kanzashi-wup/").concat(rest))
            },
            None => None,
        },
    }
}

/// Maps a video address of the known content-delivery host to its local file.
pub fn movie_url_to_filename(url: &str) -> (r: Option<String>)
    ensures
        opt_view(r) == movie_filename(url@),
{
    match strip_prefix(url, "https://kanzashi-movie-ctr.cdn.nintendo.net/m/") {
        Some(rest) => {
            proof {
                lemma_strip(url@, movie_prefix(), rest@);
            }
            Some(String::from_str("kanzashi-movie/").concat(rest))
        },
        None => None,
    }
}

proof fn lemma_prefix_parts(a: Seq<char>, r1: Seq<char>, r2: Seq<char>)
    requires
        a + r1 == a + r2,
    ensures
        r1 == r2,
{
    assert(r1 =~= (a + r1).skip(a.len() as int));
    assert(r2 =~= (a + r2).skip(a.len() as int));
}

/// The file name mapping is lossless: two addresses that map to the same
/// file name are the same address.
pub proof fn lemma_image_filename_injective(u1: Seq<char>, u2: Seq<char>)
    requires
        image_filename(u1) is Some,
        image_filename(u1) == image_filename(u2),
    ensures
        u1 == u2,
{
    reveal_strlit("kanzashi/");
    reveal_strlit("kanzashi-wup/");
    let k = "kanzashi/"@;
    let w = "kanzashi-wup/"@;
    let f = image_filename(u1)->0;
    let c = ctr_image_prefix();
    let p = wup_image_prefix();
    let ctr1 = starts_with(u1, c);
    let ctr2 = starts_with(u2, c);
    if ctr1 && ctr2 {
        lemma_prefix_parts(k, u1.skip(c.len() as int), u2.skip(c.len() as int));
        assert(u1 =~= c + u1.skip(c.len() as int));
        assert(u2 =~= c + u2.skip(c.len() as int));
    } else if !ctr1 && !ctr2 {
        lemma_prefix_parts(w, u1.skip(p.len() as int), u2.skip(p.len() as int));
        assert(u1 =~= p + u1.skip(p.len() as int));
        assert(u2 =~= p + u2.skip(p.len() as int));
    } else {
        assert(f[8] == (k + u1.skip(c.len() as int))[8] || f[8] == (w + u1.skip(p.len() as int))[8]);
        if ctr1 {
            assert((k + u1.skip(c.len() as int))[8] == '/');
            assert((w + u2.skip(p.len() as int))[8] == '-');
        } else {
            assert((w + u1.skip(p.len() as int))[8] == '-');
            assert((k + u2.skip(c.len() as int))[8] == '/');
        }
    }
}

/// Different video addresses never share a file name.
pub proof fn lemma_movie_filename_injective(u1: Seq<char>, u2: Seq<char>)
    requires
        movie_filename(u1) is Some,
        movie_filename(u1) == movie_filename(u2),
    ensures
        u1 == u2,
{
    let m = movie_prefix();
    lemma_prefix_parts("kanzashi-movie/"@, u1.skip(m.len() as int), u2.skip(m.len() as int));
    assert(u1 =~= m + u1.skip(m.len() as int));
    assert(u2 =~= m + u2.skip(m.len() as int));
}

} // verus!
